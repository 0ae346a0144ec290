//! Fixed-point domain scalars.
//!
//! A domain value is an `i64` count of micro-units: `SCALE` raw units stand
//! for one unit of the signal.  Values are kept within `COORD_LIMIT`, steps
//! within `STEP_LIMIT`, so every computation of the engine stays well inside
//! `i64` and bounds never leave `BOUND_LIMIT`.
//!
//! This module parses decimal text (`-12.5`, `2.5e-2`) into raw values and
//! formats raw values back with two decimal places, exactly as the label
//! layout needs.

use vstd::prelude::*;
use crate::ingest::{find_byte, lemma_find_byte};

verus! {

/// Raw units per one domain unit.
pub const SCALE: i64 = 1000000;

/// Largest magnitude of a data coordinate, in raw units.
pub const COORD_LIMIT: i64 = 1000000000000;

/// Largest magnitude of a data coordinate, in whole domain units.
pub const INT_CAP: i64 = 1000000;

/// Largest step size, in raw units.
pub const STEP_LIMIT: i64 = 1000000000;

/// Largest magnitude a bound can reach: a coordinate plus one step margin.
pub const BOUND_LIMIT: i64 = COORD_LIMIT + STEP_LIMIT;

pub open spec fn is_digit(c: u8) -> bool {
    48 <= c <= 57
}

pub open spec fn digit_val(c: u8) -> int {
    c - 48
}

pub open spec fn all_digits(s: Seq<u8>) -> bool {
    forall|i: int| 0 <= i < s.len() ==> is_digit(s[i])
}

/// The number that a digit string denotes, most significant digit first.
pub open spec fn digits_val(s: Seq<u8>) -> int
    decreases s.len(),
{
    if s.len() == 0 {
        0
    } else {
        digits_val(s.drop_last()) * 10 + digit_val(s.last())
    }
}

pub open spec fn pow10(n: nat) -> int
    decreases n,
{
    if n == 0 {
        1
    } else {
        10 * pow10((n - 1) as nat)
    }
}

/// The value of a fraction-digit string, in micro-units: the first six
/// digits count, shorter strings are padded with zeros on the right.
pub open spec fn frac_micro(s: Seq<u8>) -> int {
    if s.len() >= 6 {
        digits_val(s.take(6))
    } else {
        digits_val(s) * pow10((6 - s.len()) as nat)
    }
}

/// Length of a leading `+` or `-` sign.
pub open spec fn sign_len(s: Seq<u8>) -> int {
    if s.len() > 0 && (s[0] == 43 || s[0] == 45) {
        1
    } else {
        0
    }
}

pub open spec fn sign_val(s: Seq<u8>) -> int {
    if s.len() > 0 && s[0] == 45 {
        -1
    } else {
        1
    }
}

/// The text after the sign: the mantissa, optionally followed by an
/// exponent marker (`e` or `E`) and the exponent.
pub open spec fn digits_region(s: Seq<u8>) -> Seq<u8> {
    s.skip(sign_len(s))
}

/// The index of the first exponent marker in the sign-stripped region, or
/// its length when there is none.
pub open spec fn exp_pos(r: Seq<u8>) -> int {
    let a = find_byte(r, 101);
    let b = find_byte(r, 69);
    if a <= b {
        a
    } else {
        b
    }
}

/// The mantissa: integer digits, an optional dot, fraction digits.
pub open spec fn mantissa(s: Seq<u8>) -> Seq<u8> {
    let r = digits_region(s);
    r.take(exp_pos(r))
}

/// Whether the text carries an exponent marker.
pub open spec fn has_exp(s: Seq<u8>) -> bool {
    exp_pos(digits_region(s)) < digits_region(s).len()
}

/// What follows the exponent marker: an optional sign, then digits.
pub open spec fn exp_text(s: Seq<u8>) -> Seq<u8> {
    let r = digits_region(s);
    if exp_pos(r) < r.len() {
        r.skip(exp_pos(r) + 1)
    } else {
        Seq::empty()
    }
}

pub open spec fn exp_digits(s: Seq<u8>) -> Seq<u8> {
    exp_text(s).skip(sign_len(exp_text(s)))
}

/// Whether the exponent part is well formed: absent, or a non-empty digit
/// string after an optional sign.
pub open spec fn exp_ok(s: Seq<u8>) -> bool {
    !has_exp(s) || (exp_digits(s).len() > 0 && all_digits(exp_digits(s)))
}

/// The exponent's value; zero when absent.
pub open spec fn exp_val(s: Seq<u8>) -> int {
    if has_exp(s) {
        sign_val(exp_text(s)) * digits_val(exp_digits(s))
    } else {
        0
    }
}

pub open spec fn int_part(s: Seq<u8>) -> Seq<u8> {
    let m = mantissa(s);
    m.take(find_byte(m, 46))
}

pub open spec fn frac_part(s: Seq<u8>) -> Seq<u8> {
    let m = mantissa(s);
    let d = find_byte(m, 46);
    if d < m.len() {
        m.skip(d + 1)
    } else {
        Seq::empty()
    }
}

/// Whether `s` is a well-formed decimal number: an optional sign, a
/// mantissa of digits with at most one dot and at least one digit, and
/// optionally an exponent marker followed by a signed digit string.
pub open spec fn parse_ok(s: Seq<u8>) -> bool {
    &&& mantissa(s).len() > 0
    &&& int_part(s).len() + frac_part(s).len() > 0
    &&& all_digits(int_part(s))
    &&& all_digits(frac_part(s))
    &&& exp_ok(s)
}

/// The mantissa's magnitude in micro-units (fraction digits beyond the
/// sixth are ignored).
pub open spec fn mant_mag(s: Seq<u8>) -> int {
    digits_val(int_part(s)) * SCALE + frac_micro(frac_part(s))
}

/// The magnitude after the exponent shift: micro-units are multiplied out
/// for a non-negative exponent and divided, toward zero, for a negative
/// one.  The mantissa is resolved to micro-units before the shift: that is
/// the model's precision boundary.
pub open spec fn shifted_mag(s: Seq<u8>) -> int {
    if exp_val(s) >= 0 {
        mant_mag(s) * pow10(exp_val(s) as nat)
    } else {
        mant_mag(s) / pow10((-exp_val(s)) as nat)
    }
}

/// The raw value a well-formed decimal denotes.
pub open spec fn parse_val(s: Seq<u8>) -> int {
    sign_val(s) * shifted_mag(s)
}

/// What parsing returns: the denoted value, when the text is well formed
/// and both the mantissa and the shifted value lie within the supported
/// coordinate range; nothing otherwise.
pub open spec fn parse_fixed_spec(s: Seq<u8>) -> Option<i64> {
    if parse_ok(s) && mant_mag(s) <= COORD_LIMIT && 0 <= shifted_mag(s) <= COORD_LIMIT {
        Some(parse_val(s) as i64)
    } else {
        None
    }
}

/// A parsed value lies within the supported coordinate range.
pub proof fn lemma_parse_val_in_range(s: Seq<u8>)
    ensures
        parse_fixed_spec(s) matches Some(v) ==> -COORD_LIMIT <= v <= COORD_LIMIT,
{
    if parse_fixed_spec(s) is Some {
        let sh = shifted_mag(s);
        if sign_val(s) == -1 {
            assert(parse_val(s) == -1 * sh);
        } else {
            assert(parse_val(s) == 1 * sh);
        }
    }
}

/// A digit string denotes a non-negative number.
pub proof fn lemma_digits_val_nonneg(s: Seq<u8>)
    requires
        all_digits(s),
    ensures
        digits_val(s) >= 0,
    decreases s.len(),
{
    if s.len() > 0 {
        assert(all_digits(s.drop_last()));
        lemma_digits_val_nonneg(s.drop_last());
    }
}

/// Extending a digit string to the right never lowers its value.
pub proof fn lemma_digits_val_prefix(s: Seq<u8>, n: int)
    requires
        all_digits(s),
        0 <= n <= s.len(),
    ensures
        digits_val(s) >= digits_val(s.take(n)),
    decreases s.len(),
{
    if n == s.len() {
        assert(s.take(n) =~= s);
    } else {
        let d = s.drop_last();
        assert(all_digits(d));
        assert(s.take(n) =~= d.take(n));
        lemma_digits_val_prefix(d, n);
        lemma_digits_val_nonneg(d);
    }
}

pub proof fn lemma_pow10_pos(n: nat)
    ensures
        pow10(n) >= 1,
    decreases n,
{
    if n > 0 {
        lemma_pow10_pos((n - 1) as nat);
    }
}

pub proof fn lemma_pow10_add(a: nat, b: nat)
    ensures
        pow10(a + b) == pow10(a) * pow10(b),
    decreases a,
{
    if a == 0 {
    } else {
        lemma_pow10_add((a - 1) as nat, b);
        assert((a + b - 1) as nat == (a - 1) as nat + b);
        assert(10 * (pow10((a - 1) as nat) * pow10(b)) == (10 * pow10((a - 1) as nat)) * pow10(
            b,
        )) by (nonlinear_arith);
    }
}

pub proof fn lemma_pow10_mono(a: nat, b: nat)
    requires
        a <= b,
    ensures
        pow10(a) <= pow10(b),
{
    lemma_pow10_add(a, (b - a) as nat);
    lemma_pow10_pos(a);
    lemma_pow10_pos((b - a) as nat);
    assert(pow10(a) * pow10((b - a) as nat) >= pow10(a) * 1) by (nonlinear_arith)
        requires
            pow10(a) >= 1,
            pow10((b - a) as nat) >= 1,
    ;
}

/// Scans `s` from `from` for the first exponent marker, `e` or `E`.
fn scan_exp(s: &Vec<u8>, from: usize) -> (r: usize)
    requires
        from <= s.len(),
    ensures
        from <= r <= s.len(),
        exp_pos(s@.skip(from as int)) == r - from,
        r < s.len() ==> (s[r as int] == 101 || s[r as int] == 69),
        forall|j: int| from <= j < r ==> s[j] != 101 && s[j] != 69,
{
    let n = s.len();
    let mut j: usize = from;
    while j < n
        invariant
            from <= j <= n,
            forall|k: int| from <= k < j ==> s@[k] != 101 && s@[k] != 69,
        decreases n - j,
    {
        let c = s[j];
        if c == 101 || c == 69 {
            proof {
                lemma_scan_exp_result(s@, from as int, j as int);
            }
            return j;
        }
        j += 1;
    }
    proof {
        lemma_scan_exp_result(s@, from as int, n as int);
    }
    n
}

/// The first-occurrence characterization pins `exp_pos` down: if nothing
/// before `r` is a marker, and `r` is a marker or the end, then the first
/// marker of the tail starting at `from` sits exactly at `r - from`.
proof fn lemma_scan_exp_result(s: Seq<u8>, from: int, r: int)
    requires
        0 <= from <= r <= s.len(),
        r < s.len() ==> (s[r] == 101 || s[r] == 69),
        forall|j: int| from <= j < r ==> s[j] != 101 && s[j] != 69,
    ensures
        exp_pos(s.skip(from)) == r - from,
{
    let t = s.skip(from);
    lemma_find_byte(t, 101);
    lemma_find_byte(t, 69);
    let a = find_byte(t, 101);
    let b = find_byte(t, 69);
    assert(forall|k: int| 0 <= k < t.len() ==> t[k] == s[from + k]);
    if a < r - from {
        assert(t[a] == 101);
        assert(s[from + a] != 101);
    }
    if b < r - from {
        assert(t[b] == 69);
        assert(s[from + b] != 69);
    }
    if r < s.len() {
        if s[r] == 101 {
            if a > r - from {
                assert(t[r - from] != 101);
            }
        } else {
            if b > r - from {
                assert(t[r - from] != 69);
            }
        }
    }
}

/// Scans `s` for the first occurrence of `b` in `[from, to)`.
fn scan_byte_to(s: &Vec<u8>, from: usize, to: usize, b: u8) -> (r: usize)
    requires
        from <= to <= s.len(),
    ensures
        from <= r <= to,
        find_byte(s@.skip(from as int).take(to - from), b) == r - from,
        r < to ==> s[r as int] == b,
        forall|j: int| from <= j < r ==> s[j] != b,
{
    let mut j: usize = from;
    while j < to
        invariant
            from <= j <= to,
            forall|k: int| from <= k < j ==> s@[k] != b,
        decreases to - j,
    {
        if s[j] == b {
            proof {
                lemma_scan_take_result(s@, from as int, to as int, b, j as int);
            }
            return j;
        }
        j += 1;
    }
    proof {
        lemma_scan_take_result(s@, from as int, to as int, b, to as int);
    }
    to
}

/// The take-bounded variant of the first-occurrence characterization.
proof fn lemma_scan_take_result(s: Seq<u8>, from: int, to: int, b: u8, r: int)
    requires
        0 <= from <= r <= to <= s.len(),
        r < to ==> s[r] == b,
        forall|j: int| from <= j < r ==> s[j] != b,
    ensures
        find_byte(s.skip(from).take(to - from), b) == r - from,
{
    let t = s.skip(from).take(to - from);
    lemma_find_byte(t, b);
    let f = find_byte(t, b);
    assert(t.len() == to - from);
    assert(forall|k: int| 0 <= k < t.len() ==> t[k] == s[from + k]);
    if f < r - from {
        assert(t[f] == b);
        assert(s[from + f] != b);
    }
    if f > r - from && r < to {
        assert(t[r - from] == b);
        assert(t[r - from] != b);
    }
}

/// The value of a fraction-digit string is a non-negative number of
/// micro-units, below one whole unit.
pub proof fn lemma_frac_micro_range(s: Seq<u8>)
    requires
        all_digits(s),
    ensures
        0 <= frac_micro(s),
{
    if s.len() >= 6 {
        assert(all_digits(s.take(6)));
        lemma_digits_val_nonneg(s.take(6));
    } else {
        lemma_digits_val_nonneg(s);
        lemma_pow10_pos((6 - s.len()) as nat);
        assert(digits_val(s) * pow10((6 - s.len()) as nat) >= 0) by (nonlinear_arith)
            requires
                digits_val(s) >= 0,
                pow10((6 - s.len()) as nat) >= 1,
        ;
    }
}

/// Parses one comma-separated field as a fixed-point decimal.
///
/// The grammar is an optional sign, a digit mantissa with at most one
/// dot, and an optional exponent (`e` or `E`, an optional sign, digits).
/// The mantissa is resolved to micro-units before the exponent shift, and
/// both the mantissa and the shifted value must lie within the coordinate
/// range: those are the model's precision and range boundaries.  Either
/// way, the result is exactly what `parse_fixed_spec` says.
#[verifier::rlimit(100)]
#[verifier::spinoff_prover]
pub fn parse_fixed(field: &Vec<u8>) -> (r: Option<i64>)
    ensures
        r == parse_fixed_spec(field@),
{
    let ghost s = field@;
    let n = field.len();
    let mut start: usize = 0;
    let mut neg = false;
    if n > 0 && (field[0] == 43 || field[0] == 45) {
        neg = field[0] == 45;
        start = 1;
    }
    proof {
        assert(sign_len(s) == start as int);
        assert(digits_region(s) == s.skip(start as int));
    }
    let ghost region = digits_region(s);
    if start == n {
        proof {
            assert(region.len() == 0);
            assert(mantissa(s).len() == 0);
        }
        return None;
    }
    let epos = scan_exp(field, start);
    let ghost mant = mantissa(s);
    proof {
        assert(exp_pos(region) == epos - start);
        assert(mant == region.take(epos - start));
        assert(mant =~= s.skip(start as int).take(epos - start));
        assert(mant.len() == epos - start);
    }
    if epos == start {
        return None;
    }
    let dot = scan_byte_to(field, start, epos, 46);
    let ghost d = find_byte(mant, 46);
    proof {
        assert(d == dot - start);
        lemma_find_byte(mant, 46);
        assert(int_part(s) == mant.take(d));
    }

    // Integer digits: mantissa[0 .. d].
    let mut acc: i64 = 0;
    let mut k: usize = start;
    while k < dot
        invariant
            start <= k <= dot,
            0 <= acc <= INT_CAP,
            all_digits(mant.take(k - start)),
            acc == digits_val(mant.take(k - start)),
        decreases dot - k,
    {
        let c = field[k];
        proof {
            assert(mant[k - start] == c);
        }
        if c < 48 || c > 57 {
            proof {
                assert(int_part(s)[k - start] == c);
            }
            return None;
        }
        proof {
            let t = mant.take(k - start);
            assert(mant.take(k - start + 1) =~= t.push(c));
            assert(t.push(c).drop_last() =~= t);
            assert(digits_val(t.push(c)) == digits_val(t) * 10 + digit_val(c));
        }
        acc = acc * 10 + (c - 48) as i64;
        if acc > INT_CAP {
            proof {
                if parse_ok(s) {
                    lemma_digits_val_prefix(int_part(s), k + 1 - start);
                    assert(int_part(s).take(k + 1 - start) =~= mant.take(k + 1 - start));
                    lemma_frac_micro_range(frac_part(s));
                    assert(digits_val(int_part(s)) * SCALE > COORD_LIMIT) by (nonlinear_arith)
                        requires
                            digits_val(int_part(s)) > INT_CAP as int,
                    ;
                }
            }
            return None;
        }
        k += 1;
    }
    proof {
        assert(mant.take(d) =~= int_part(s));
        assert(all_digits(int_part(s)));
        assert(acc == digits_val(int_part(s)));
    }

    // Fraction digits: mantissa[d + 1 ..], when a dot is present.
    let mut facc: i64 = 0;
    if dot < epos {
        if dot == start && dot + 1 == epos {
            // A lone dot: the mantissa has no digits at all.
            proof {
                assert(int_part(s).len() + frac_part(s).len() == 0);
            }
            return None;
        }
        let ghost fp = frac_part(s);
        proof {
            assert(fp == mant.skip(d + 1));
        }
        let mut m: usize = dot + 1;
        while m < epos
            invariant
                dot + 1 <= m <= epos,
                dot < epos,
                all_digits(fp.take(m - dot - 1)),
                facc == digits_val(fp.take(if m - dot - 1 <= 6 { m - dot - 1 } else { 6 })),
                facc < pow10(if m - dot - 1 <= 6 { (m - dot - 1) as nat } else { 6nat }),
                0 <= facc < 1000000,
            decreases epos - m,
        {
            let c = field[m];
            proof {
                assert(fp[m - dot - 1] == c);
            }
            if c < 48 || c > 57 {
                return None;
            }
            let ghost j = m - dot - 1;
            proof {
                assert(fp.take(j + 1) =~= fp.take(j).push(c));
                if j < 6 {
                    let t = fp.take(j);
                    assert(t.push(c).drop_last() =~= t);
                    assert(digits_val(t.push(c)) == digits_val(t) * 10 + digit_val(c));
                    assert(pow10((j + 1) as nat) == 10 * pow10(j as nat));
                } else {
                    assert(fp.take(j + 1).take(6) =~= fp.take(6));
                }
                lemma_pow10_le_million((if j + 1 <= 6 { j + 1 } else { 6 }) as nat);
            }
            if m - dot - 1 < 6 {
                facc = facc * 10 + (c - 48) as i64;
            }
            m += 1;
        }
        proof {
            assert(fp.take(epos - dot - 1) =~= fp);
            assert(all_digits(fp));
        }
        let frac_len = epos - dot - 1;
        if frac_len < 6 {
            let p = pow10_small(6 - frac_len);
            proof {
                lemma_pow10_le_million((6 - frac_len) as nat);
                assert(fp.take(frac_len as int) =~= fp);
                assert(facc * p <= 999999 * 1000000) by (nonlinear_arith)
                    requires
                        0 <= facc < 1000000,
                        1 <= p <= 1000000,
                ;
                assert(facc * p >= 0) by (nonlinear_arith)
                    requires
                        0 <= facc,
                        1 <= p,
                ;
            }
            facc = facc * p;
            proof {
                assert(facc == frac_micro(fp));
            }
        } else {
            proof {
                assert(fp.take(6) =~= fp.take(if frac_len <= 6 { frac_len as int } else { 6 }));
                assert(facc == frac_micro(fp));
            }
        }
    } else {
        proof {
            assert(frac_part(s) =~= Seq::<u8>::empty());
            assert(digits_val(Seq::<u8>::empty()) == 0);
            assert(frac_micro(frac_part(s)) == 0);
        }
    }

    proof {
        assert(acc * SCALE <= COORD_LIMIT);
        lemma_frac_micro_range(frac_part(s));
    }
    let v = acc * SCALE + facc;
    proof {
        assert(v as int == mant_mag(s));
        assert(v >= 0);
    }
    if v > COORD_LIMIT {
        return None;
    }

    // The exponent shift.
    if epos < n {
        proof {
            assert(has_exp(s));
        }
        let sv = match apply_exponent(field, epos, v) {
            Some(sv) => sv,
            None => {
                return None;
            },
        };
        proof {
            assert(parse_ok(s));
        }
        if neg {
            let nsv = -sv;
            proof {
                assert(parse_val(s) == -1 * (sv as int));
                assert(nsv as int == parse_val(s));
                assert(parse_fixed_spec(s) == Some(nsv));
            }
            Some(nsv)
        } else {
            proof {
                assert(parse_val(s) == 1 * (sv as int));
                assert(parse_fixed_spec(s) == Some(sv));
            }
            Some(sv)
        }
    } else {
        proof {
            assert(!has_exp(s));
            assert(exp_val(s) == 0);
            assert(shifted_mag(s) == mant_mag(s) * pow10(0nat));
            assert(mant_mag(s) * pow10(0nat) == mant_mag(s)) by (nonlinear_arith)
                requires
                    pow10(0nat) == 1,
            ;
            assert(parse_ok(s));
        }
        if neg {
            let nv = -v;
            proof {
                assert(parse_val(s) == -1 * (v as int));
                assert(nv as int == parse_val(s));
                assert(parse_fixed_spec(s) == Some(nv));
            }
            Some(nv)
        } else {
            proof {
                assert(parse_val(s) == 1 * (v as int));
                assert(parse_fixed_spec(s) == Some(v));
            }
            Some(v)
        }
    }
}

/// Applies the exponent that starts at `field[epos]` to the mantissa
/// magnitude `v`: multiplies micro-units out for a non-negative exponent,
/// divides toward zero for a negative one, and reports an out-of-range or
/// malformed exponent as nothing.
#[verifier::rlimit(100)]
#[verifier::spinoff_prover]
fn apply_exponent(field: &Vec<u8>, epos: usize, v: i64) -> (r: Option<i64>)
    requires
        epos < field@.len(),
        sign_len(field@) + exp_pos(digits_region(field@)) == epos as int,
        has_exp(field@),
        mant_mag(field@) == v as int,
        0 <= v <= COORD_LIMIT,
    ensures
        r matches Some(sv) ==> exp_ok(field@) && 0 <= sv && sv as int == shifted_mag(field@)
            && shifted_mag(field@) <= COORD_LIMIT,
        r is None ==> !exp_ok(field@) || shifted_mag(field@) > COORD_LIMIT,
{
    let ghost s = field@;
    let ghost region = digits_region(s);
    let ghost start = sign_len(s);
    let n = field.len();
    let ghost et = exp_text(s);
    proof {
        assert(et == region.skip(epos - start + 1));
        assert(et.len() == n - epos - 1);
    }
    let mut ei: usize = epos + 1;
    let mut eneg = false;
    if ei < n && (field[ei] == 43 || field[ei] == 45) {
        proof {
            assert(et[0] == s[epos + 1]);
        }
        eneg = field[ei] == 45;
        ei = ei + 1;
    }
    proof {
        assert(sign_len(et) == ei - (epos + 1));
        assert(eneg == (sign_val(et) == -1));
    }
    let ghost ed = exp_digits(s);
    proof {
        assert(ed == et.skip(sign_len(et)));
        assert(ed.len() == n - ei);
    }
    if ei == n {
        proof {
            assert(!exp_ok(s));
        }
        return None;
    }
    let mut eacc: i64 = 0;
    let mut big = false;
    let mut k2: usize = ei;
    while k2 < n
        invariant
            ei <= k2 <= n,
            all_digits(ed.take(k2 - ei)),
            !big ==> 0 <= eacc <= 100 && eacc == digits_val(ed.take(k2 - ei)),
            big ==> digits_val(ed.take(k2 - ei)) > 100,
        decreases n - k2,
    {
        let c = field[k2];
        proof {
            assert(ed[k2 - ei] == c);
        }
        if c < 48 || c > 57 {
            proof {
                assert(!all_digits(ed));
            }
            return None;
        }
        proof {
            let t = ed.take(k2 - ei);
            assert(ed.take(k2 - ei + 1) =~= t.push(c));
            assert(t.push(c).drop_last() =~= t);
            assert(digits_val(t.push(c)) == digits_val(t) * 10 + digit_val(c));
        }
        if !big {
            eacc = eacc * 10 + (c - 48) as i64;
            if eacc > 100 {
                big = true;
            }
        }
        k2 += 1;
    }
    let ghost e_mag = digits_val(ed);
    proof {
        assert(ed.take(n - ei) =~= ed);
        assert(exp_ok(s));
        lemma_digits_val_nonneg(ed);
        assert(exp_val(s) == (if eneg { -1int } else { 1int }) * e_mag);
    }
    if big || eacc > 12 {
        // The exponent magnitude is beyond any in-range shift.
        proof {
            assert(e_mag > 12);
            lemma_pow10_mono(13, e_mag as nat);
            assert(pow10(13) == 10000000000000) by {
                reveal_with_fuel(pow10, 14);
            }
        }
        if eneg {
            proof {
                assert(exp_val(s) < 0);
                vstd::arithmetic::div_mod::lemma_basic_div(v as int, pow10(e_mag as nat));
                assert(shifted_mag(s) == 0);
            }
            Some(0)
        } else if v == 0 {
            proof {
                assert(mant_mag(s) * pow10(e_mag as nat) == 0) by (nonlinear_arith)
                    requires
                        mant_mag(s) == 0,
                ;
                assert(shifted_mag(s) == 0);
            }
            Some(0)
        } else {
            proof {
                assert(exp_val(s) >= 0);
                assert(v as int * pow10(e_mag as nat) >= pow10(e_mag as nat)) by (nonlinear_arith)
                    requires
                        v as int >= 1,
                        pow10(e_mag as nat) >= 1,
                ;
                assert(shifted_mag(s) > COORD_LIMIT);
            }
            None
        }
    } else {
        // The exponent magnitude fits: 0 <= eacc <= 12.
        let p = pow10_small(eacc as usize);
        if eneg && eacc > 0 {
            proof {
                assert(exp_val(s) < 0);
            }
            let sv = (v as u64 / p as u64) as i64;
            proof {
                vstd::arithmetic::div_mod::lemma_div_nonincreasing(v as int, p as int);
                vstd::arithmetic::div_mod::lemma_div_pos_is_pos(v as int, p as int);
                assert(shifted_mag(s) == v as int / p as int);
            }
            Some(sv)
        } else {
            proof {
                assert(exp_val(s) >= 0);
                assert((exp_val(s)) as nat == eacc as nat);
                assert(pow10(12) == 1000000000000) by {
                    reveal_with_fuel(pow10, 13);
                }
                lemma_pow10_add(eacc as nat, (12 - eacc) as nat);
                lemma_pow10_add((12 - eacc) as nat, eacc as nat);
                lemma_pow10_pos((12 - eacc) as nat);
                assert(COORD_LIMIT as int == p as int * pow10((12 - eacc) as nat));
                vstd::arithmetic::div_mod::lemma_div_multiples_vanish(
                    pow10((12 - eacc) as nat),
                    p as int,
                );
            }
            let lim = (COORD_LIMIT as u64 / p as u64) as i64;
            proof {
                assert(lim as int == pow10((12 - eacc) as nat));
                assert(lim as int * p as int == COORD_LIMIT);
            }
            if v > lim {
                proof {
                    assert(v as int * p as int > lim as int * p as int) by (nonlinear_arith)
                        requires
                            v as int > lim as int,
                            p as int >= 1,
                    ;
                    assert(shifted_mag(s) > COORD_LIMIT);
                }
                return None;
            }
            proof {
                assert(v as int * p as int <= lim as int * p as int) by (nonlinear_arith)
                    requires
                        0 <= v as int <= lim as int,
                        p as int >= 1,
                ;
            }
            let sv = v * p;
            proof {
                assert(sv as int >= 0) by (nonlinear_arith)
                    requires
                        v as int >= 0,
                        p as int >= 1,
                        sv as int == v as int * p as int,
                ;
                assert(shifted_mag(s) == sv as int);
            }
            Some(sv)
        }
    }
}

/// `pow10` never exceeds one million on exponents up to six.
proof fn lemma_pow10_le_million(n: nat)
    requires
        n <= 6,
    ensures
        pow10(n) <= 1000000,
    decreases n,
{
    reveal_with_fuel(pow10, 7);
    if n > 0 {
        lemma_pow10_le_million((n - 1) as nat);
    }
}

/// A non-negative number of micro-units rounded to hundredths, halves to
/// the even neighbour.
pub open spec fn round_hundredths(m: int) -> int {
    let q = m / 10000;
    let r = m % 10000;
    if r > 5000 {
        q + 1
    } else if r == 5000 && q % 2 == 1 {
        q + 1
    } else {
        q
    }
}

/// The decimal digits of a non-negative number, most significant first.
pub open spec fn dec_digits(n: int) -> Seq<u8>
    decreases n when n >= 0
{
    if n < 10 {
        seq![(48 + n) as u8]
    } else {
        dec_digits(n / 10).push((48 + n % 10) as u8)
    }
}

/// The text of a raw value with two decimal places: an optional minus sign,
/// the whole units, a dot, and the rounded hundredths.
pub open spec fn format_fixed2_spec(v: int) -> Seq<u8> {
    let m = if v < 0 { -v } else { v };
    let h = round_hundredths(m);
    let body = dec_digits(h / 100) + seq![46u8, (48 + (h / 10) % 10) as u8, (48 + h % 10) as u8];
    if v < 0 {
        seq![45u8] + body
    } else {
        body
    }
}

/// Appends the decimal digits of `n` to `out`.
fn push_decimal(n: u64, out: &mut Vec<u8>)
    ensures
        final(out)@ == old(out)@ + dec_digits(n as int),
    decreases n,
{
    if n < 10 {
        out.push((48 + n as u8));
        proof {
            assert(final(out)@ =~= old(out)@ + dec_digits(n as int));
        }
    } else {
        push_decimal(n / 10, out);
        out.push(48 + (n % 10) as u8);
        proof {
            assert(final(out)@ =~= old(out)@ + dec_digits(n as int));
        }
    }
}

/// Formats a raw value with exactly two decimal places, as the axis labels
/// show tick values.
pub fn format_fixed2(v: i64) -> (r: Vec<u8>)
    requires
        -BOUND_LIMIT <= v <= BOUND_LIMIT,
    ensures
        r@ == format_fixed2_spec(v as int),
{
    let m: u64 = if v < 0 {
        (-v) as u64
    } else {
        v as u64
    };
    let q = m / 10000;
    let rem = m % 10000;
    let h: u64 = if rem > 5000 {
        q + 1
    } else if rem == 5000 && q % 2 == 1 {
        q + 1
    } else {
        q
    };
    proof {
        assert(h as int == round_hundredths(m as int));
    }
    let mut out: Vec<u8> = Vec::new();
    if v < 0 {
        out.push(45);
    }
    push_decimal(h / 100, &mut out);
    out.push(46);
    out.push(48 + ((h / 10) % 10) as u8);
    out.push(48 + (h % 10) as u8);
    proof {
        assert(out@ =~= format_fixed2_spec(v as int));
    }
    out
}

/// Ten to a small power, as a machine integer.
fn pow10_small(k: usize) -> (r: i64)
    requires
        k <= 12,
    ensures
        r as int == pow10(k as nat),
        1 <= r <= 1000000000000,
{
    proof {
        reveal_with_fuel(pow10, 13);
    }
    if k == 0 {
        1
    } else if k == 1 {
        10
    } else if k == 2 {
        100
    } else if k == 3 {
        1000
    } else if k == 4 {
        10000
    } else if k == 5 {
        100000
    } else if k == 6 {
        1000000
    } else if k == 7 {
        10000000
    } else if k == 8 {
        100000000
    } else if k == 9 {
        1000000000
    } else if k == 10 {
        10000000000
    } else if k == 11 {
        100000000000
    } else {
        1000000000000
    }
}

} // verus!
