//! Decimal text handling for the fixed-point amounts: parsing a
//! decimal field (at most four fractional digits) into a count of
//! ten-thousandths, and formatting balances back with exactly four
//! fractional digits.  Everything works on ASCII bytes.

use vstd::prelude::*;

verus! {

/// ASCII decimal digit.
pub open spec fn is_digit(b: u8) -> bool {
    48 <= b <= 57
}

/// Every byte of the sequence is an ASCII digit.
pub open spec fn all_digits(s: Seq<u8>) -> bool {
    forall|i: int| 0 <= i < s.len() ==> is_digit(#[trigger] s[i])
}

/// A well-formed unsigned decimal numeral: non-empty, digits only.
pub open spec fn dec_wf(s: Seq<u8>) -> bool {
    s.len() >= 1 && all_digits(s)
}

/// The value of a digit sequence read as a base-ten numeral.
pub open spec fn dec_val(s: Seq<u8>) -> int
    decreases s.len(),
{
    if s.len() == 0 {
        0
    } else {
        dec_val(s.drop_last()) * 10 + (s.last() - 48)
    }
}

/// The canonical digit sequence of `n`, most significant first, no
/// leading zeros (a single zero for zero).
pub open spec fn dec_digits(n: nat) -> Seq<u8>
    decreases n,
{
    if n < 10 {
        seq![(48 + n) as u8]
    } else {
        dec_digits(n / 10).push((48 + n % 10) as u8)
    }
}

pub proof fn lemma_dec_val_nonneg(s: Seq<u8>)
    requires
        all_digits(s),
    ensures
        dec_val(s) >= 0,
    decreases s.len(),
{
    if s.len() > 0 {
        lemma_dec_val_nonneg(s.drop_last());
    }
}

/// Reading more digits never shrinks the value: the value of a
/// prefix bounds the value of the whole numeral from below.
pub proof fn lemma_dec_val_prefix_le(s: Seq<u8>, i: int)
    requires
        all_digits(s),
        0 <= i <= s.len(),
    ensures
        dec_val(s.subrange(0, i)) <= dec_val(s),
    decreases s.len() - i,
{
    if i < s.len() {
        lemma_dec_val_prefix_le(s, i + 1);
        let p = s.subrange(0, i);
        let q = s.subrange(0, i + 1);
        assert(q.drop_last() =~= p);
        lemma_dec_val_nonneg(p);
    } else {
        assert(s.subrange(0, i) =~= s);
    }
}

/// Parse the digit run `v[start..end]` as an unsigned numeral.
/// Returns its value exactly when the run is a well-formed numeral
/// whose value fits a `u64`.
pub fn parse_dec_u64(v: &Vec<u8>, start: usize, end: usize) -> (r: Option<u64>)
    requires
        start <= end <= v@.len(),
    ensures
        r is Some <==> dec_wf(v@.subrange(start as int, end as int)) && dec_val(
            v@.subrange(start as int, end as int),
        ) <= u64::MAX,
        r is Some ==> r->0 == dec_val(v@.subrange(start as int, end as int)),
{
    let ghost whole = v@.subrange(start as int, end as int);
    if start == end {
        return None;
    }
    let mut acc: u64 = 0;
    let mut i: usize = start;
    while i < end
        invariant
            start <= i <= end <= v@.len(),
            all_digits(v@.subrange(start as int, i as int)),
            acc == dec_val(v@.subrange(start as int, i as int)),
            whole == v@.subrange(start as int, end as int),
        decreases end - i,
    {
        let b = v[i];
        proof {
            assert(v@.subrange(start as int, i as int + 1).drop_last() =~= v@.subrange(
                start as int,
                i as int,
            ));
            assert(v@.subrange(start as int, i as int + 1).last() == v@[i as int]);
        }
        if b < 48 || b > 57 {
            proof {
                assert(whole[i - start] == v@[i as int]);
                assert(!all_digits(whole));
            }
            return None;
        }
        let d: u64 = (b - 48) as u64;
        let step = match acc.checked_mul(10) {
            Some(m) => m.checked_add(d),
            None => None,
        };
        match step {
            Some(next) => {
                acc = next;
            },
            None => {
                proof {
                    assert(dec_val(v@.subrange(start as int, i as int + 1)) > u64::MAX);
                    if all_digits(whole) {
                        assert(whole.subrange(0, i + 1 - start) =~= v@.subrange(
                            start as int,
                            i as int + 1,
                        ));
                        lemma_dec_val_prefix_le(whole, i + 1 - start);
                    }
                }
                return None;
            },
        }
        i += 1;
    }
    proof {
        assert(v@.subrange(start as int, i as int) =~= whole);
    }
    Some(acc)
}

/// The canonical digit run of `n`, as bytes.
pub fn u64_to_dec(n: u64) -> (r: Vec<u8>)
    ensures
        r@ == dec_digits(n as nat),
    decreases n,
{
    if n < 10 {
        let mut v: Vec<u8> = Vec::new();
        v.push(48 + n as u8);
        proof {
            assert(v@ =~= dec_digits(n as nat));
        }
        v
    } else {
        let mut v = u64_to_dec(n / 10);
        v.push(48 + (n % 10) as u8);
        proof {
            assert(v@ =~= dec_digits(n as nat));
        }
        v
    }
}

/// Index of the first `.` in the sequence, `-1` if there is none.
pub open spec fn dot_pos(s: Seq<u8>) -> int
    decreases s.len(),
{
    if s.len() == 0 {
        -1
    } else if s.first() == 46 {
        0
    } else if dot_pos(s.drop_first()) < 0 {
        -1
    } else {
        dot_pos(s.drop_first()) + 1
    }
}

pub proof fn lemma_dot_pos_found(s: Seq<u8>, i: int)
    requires
        0 <= i < s.len(),
        s[i] == 46,
        forall|j: int| 0 <= j < i ==> s[j] != 46,
    ensures
        dot_pos(s) == i,
    decreases s.len(),
{
    if i > 0 {
        lemma_dot_pos_found(s.drop_first(), i - 1);
    }
}

pub proof fn lemma_dot_pos_none(s: Seq<u8>)
    requires
        forall|j: int| 0 <= j < s.len() ==> s[j] != 46,
    ensures
        dot_pos(s) == -1,
    decreases s.len(),
{
    if s.len() > 0 {
        lemma_dot_pos_none(s.drop_first());
    }
}

/// The scale that brings `len` fractional digits up to four:
/// `frac * frac_scale(len)` is a count of ten-thousandths.
pub open spec fn spec_frac_scale(len: int) -> int {
    if len == 1 {
        1000
    } else if len == 2 {
        100
    } else if len == 3 {
        10
    } else {
        1
    }
}

/// The value, in ten-thousandths, of a decimal amount field: an
/// optional leading minus sign, a non-empty run of digits, and
/// optionally a dot followed by one to four fractional digits.
/// `None` when the field does not have that shape.
pub open spec fn spec_parse_amount(s: Seq<u8>) -> Option<int> {
    let neg = s.len() > 0 && s[0] == 45;
    let body = if neg {
        s.drop_first()
    } else {
        s
    };
    let p = dot_pos(body);
    if p < 0 {
        if dec_wf(body) {
            Some(if neg {
                -(dec_val(body) * 10000)
            } else {
                dec_val(body) * 10000
            })
        } else {
            None
        }
    } else {
        let ip = body.subrange(0, p);
        let fp = body.subrange(p + 1, body.len() as int);
        if dec_wf(ip) && 1 <= fp.len() <= 4 && all_digits(fp) {
            let m = dec_val(ip) * 10000 + dec_val(fp) * spec_frac_scale(fp.len() as int);
            Some(if neg {
                -m
            } else {
                m
            })
        } else {
            None
        }
    }
}

/// Parse a decimal amount field into ten-thousandths.  Returns the
/// exact parsed value whenever the field is well-formed and the
/// value fits the fixed-point range; `None` otherwise.
pub fn parse_amount(v: &Vec<u8>) -> (r: Option<i64>)
    ensures
        match spec_parse_amount(v@) {
            Some(x) => {
                if -i64::MAX <= x <= i64::MAX {
                    r == Some(x as i64)
                } else {
                    r is None
                }
            },
            None => r is None,
        },
{
    let n = v.len();
    let neg = n > 0 && v[0] == 45;
    let start: usize = if neg {
        1
    } else {
        0
    };
    let ghost body = if neg {
        v@.drop_first()
    } else {
        v@
    };
    proof {
        assert(body =~= v@.subrange(start as int, n as int));
    }

    // locate the first dot of the body, if any
    let mut dot: usize = n;
    let mut i: usize = start;
    while i < n && dot == n
        invariant
            start <= i <= n == v@.len(),
            dot == n ==> forall|j: int| start <= j < i ==> v@[j] != 46,
            dot != n ==> start <= dot < n && v@[dot as int] == 46 && forall|j: int|
                start <= j < dot ==> v@[j] != 46,
        decreases n - i,
    {
        if v[i] == 46 {
            dot = i;
        }
        i += 1;
    }
    proof {
        if dot == n {
            assert forall|j: int| 0 <= j < body.len() implies body[j] != 46 by {
                assert(body[j] == v@[start + j]);
            }
            lemma_dot_pos_none(body);
        } else {
            assert(body[dot - start] == v@[dot as int]);
            assert forall|j: int| 0 <= j < dot - start implies body[j] != 46 by {
                assert(body[j] == v@[start + j]);
            }
            lemma_dot_pos_found(body, dot - start);
        }
    }

    let (ip_val, frac_part): (u64, u64) = if dot == n {
        proof {
            assert(body =~= v@.subrange(start as int, n as int));
        }
        match parse_dec_u64(v, start, n) {
            Some(x) => (x, 0),
            None => {
                proof {
                    if dec_wf(body) {
                        lemma_dec_val_nonneg(body);
                    }
                }
                return None;
            },
        }
    } else {
        let fl = n - dot - 1;
        let ghost ip = body.subrange(0, dot - start);
        let ghost fp = body.subrange(dot - start + 1, body.len() as int);
        proof {
            assert(ip =~= v@.subrange(start as int, dot as int));
            assert(fp =~= v@.subrange(dot as int + 1, n as int));
        }
        if fl < 1 || fl > 4 {
            return None;
        }
        let ipr = parse_dec_u64(v, start, dot);
        let fpr = parse_dec_u64(v, dot + 1, n);
        match (ipr, fpr) {
            (Some(x), Some(f)) => {
                let scale: u64 = if fl == 1 {
                    1000
                } else if fl == 2 {
                    100
                } else if fl == 3 {
                    10
                } else {
                    1
                };
                proof {
                    lemma_dec_val_prefix_le(fp, fp.len() as int);
                    lemma_dec_val_nonneg(fp);
                    assert(fp.len() <= 4);
                    lemma_dec_val_bound(fp);
                }
                (x, f * scale)
            },
            _ => {
                proof {
                    if dec_wf(ip) {
                        lemma_dec_val_nonneg(ip);
                    }
                    if all_digits(fp) {
                        lemma_dec_val_nonneg(fp);
                    }
                }
                return None;
            },
        }
    };

    // combine: ip_val * 10000 + frac_part, checked against the range
    let scaled = match ip_val.checked_mul(10000) {
        Some(m) => m.checked_add(frac_part),
        None => None,
    };
    match scaled {
        Some(m) => {
            if m <= i64::MAX as u64 {
                if neg {
                    Some(-(m as i64))
                } else {
                    Some(m as i64)
                }
            } else {
                None
            }
        },
        None => None,
    }
}

/// A digit run of length at most four names a value below ten
/// thousand.
pub proof fn lemma_dec_val_bound(s: Seq<u8>)
    requires
        all_digits(s),
        s.len() <= 4,
    ensures
        dec_val(s) < 10000,
    decreases s.len(),
{
    if s.len() > 0 {
        lemma_dec_val_bound_rec(s);
    }
}

proof fn lemma_dec_val_bound_rec(s: Seq<u8>)
    requires
        all_digits(s),
        s.len() <= 4,
    ensures
        dec_val(s) < 10000,
        s.len() <= 3 ==> dec_val(s) < 1000,
        s.len() <= 2 ==> dec_val(s) < 100,
        s.len() <= 1 ==> dec_val(s) < 10,
    decreases s.len(),
{
    if s.len() > 0 {
        lemma_dec_val_bound_rec(s.drop_last());
    }
}

/// The four fractional digits of `f` (a count of ten-thousandths
/// below ten thousand), zero-padded.
pub open spec fn spec_frac4(f: int) -> Seq<u8> {
    seq![
        (48 + f / 1000) as u8,
        (48 + (f / 100) % 10) as u8,
        (48 + (f / 10) % 10) as u8,
        (48 + f % 10) as u8,
    ]
}

/// The canonical text of an amount of ten-thousandths: optional
/// minus sign, the whole part, a dot, and exactly four fractional
/// digits.
pub open spec fn spec_fmt_amount(a: int) -> Seq<u8> {
    let m = if a < 0 {
        -a
    } else {
        a
    };
    let sign: Seq<u8> = if a < 0 {
        seq![45u8]
    } else {
        Seq::empty()
    };
    sign + dec_digits((m / 10000) as nat) + seq![46u8] + spec_frac4(m % 10000)
}

/// Format an amount of ten-thousandths with exactly four fractional
/// digits.
pub fn format_amount(a: i64) -> (r: Vec<u8>)
    ensures
        r@ == spec_fmt_amount(a as int),
{
    let wide: i128 = a as i128;
    let m: u64 = if wide < 0 {
        (-wide) as u64
    } else {
        wide as u64
    };
    let mut out: Vec<u8> = Vec::new();
    if a < 0 {
        out.push(45);
    }
    let mut whole = u64_to_dec(m / 10000);
    out.append(&mut whole);
    out.push(46);
    let f: u64 = m % 10000;
    out.push(48 + (f / 1000) as u8);
    out.push(48 + ((f / 100) % 10) as u8);
    out.push(48 + ((f / 10) % 10) as u8);
    out.push(48 + (f % 10) as u8);
    proof {
        assert(out@ =~= spec_fmt_amount(a as int));
    }
    out
}

/// Lower-case an ASCII letter byte; any other byte is unchanged.
pub open spec fn lower_byte(b: u8) -> u8 {
    if 65 <= b <= 90 {
        (b + 32) as u8
    } else {
        b
    }
}

/// The byte-wise ASCII lower-casing of a sequence.
pub open spec fn lower_bytes(s: Seq<u8>) -> Seq<u8> {
    Seq::new(s.len(), |i: int| lower_byte(s[i]))
}

/// ASCII lower-casing of a byte vector.
pub fn to_lower(v: &Vec<u8>) -> (r: Vec<u8>)
    ensures
        r@ == lower_bytes(v@),
{
    let mut out: Vec<u8> = Vec::new();
    let mut i: usize = 0;
    while i < v.len()
        invariant
            i <= v@.len(),
            out@.len() == i,
            forall|j: int| 0 <= j < i ==> out@[j] == lower_byte(v@[j]),
        decreases v@.len() - i,
    {
        let b = v[i];
        if 65 <= b && b <= 90 {
            out.push(b + 32);
        } else {
            out.push(b);
        }
        i += 1;
    }
    proof {
        assert(out@ =~= lower_bytes(v@));
    }
    out
}

/// Byte-vector equality.
pub fn bytes_eq(a: &Vec<u8>, b: &Vec<u8>) -> (r: bool)
    ensures
        r == (a@ == b@),
{
    if a.len() != b.len() {
        return false;
    }
    let mut i: usize = 0;
    while i < a.len()
        invariant
            i <= a@.len() == b@.len(),
            forall|j: int| 0 <= j < i ==> a@[j] == b@[j],
        decreases a@.len() - i,
    {
        if a[i] != b[i] {
            return false;
        }
        i += 1;
    }
    proof {
        assert(a@ =~= b@);
    }
    true
}

} // verus!
