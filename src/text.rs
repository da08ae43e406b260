use vstd::prelude::*;

use crate::provider::UptimeError;

verus! {

/// ASCII whitespace: tab, line feed, vertical tab, form feed, carriage
/// return and space. Other whitespace characters do not separate tokens.
pub open spec fn is_space(b: u8) -> bool {
    b == 32 || (9 <= b && b <= 13)
}

pub open spec fn is_digit(b: u8) -> bool {
    48 <= b && b <= 57
}

pub open spec fn is_sign(b: u8) -> bool {
    b == 43 || b == 45
}

pub open spec fn all_digits(t: Seq<u8>) -> bool {
    forall|i: int| 0 <= i < t.len() ==> is_digit(#[trigger] t[i])
}

/// The number that a run of decimal digits denotes.
pub open spec fn digits_value(t: Seq<u8>) -> nat
    decreases t.len(),
{
    if t.len() == 0 {
        0
    } else {
        digits_value(t.drop_last()) * 10 + (t.last() - 48) as nat
    }
}

pub open spec fn pow10(n: nat) -> nat
    decreases n,
{
    if n == 0 {
        1
    } else {
        10 * pow10((n - 1) as nat)
    }
}

/// The first index at or after `i` that does not hold whitespace, or the end.
pub open spec fn skip_spaces(s: Seq<u8>, i: int) -> int
    decreases s.len() - i,
{
    if 0 <= i < s.len() && is_space(s[i]) {
        skip_spaces(s, i + 1)
    } else {
        i
    }
}

/// The first index at or after `i` that holds whitespace, or the end.
pub open spec fn skip_token(s: Seq<u8>, i: int) -> int
    decreases s.len() - i,
{
    if 0 <= i < s.len() && !is_space(s[i]) {
        skip_token(s, i + 1)
    } else {
        i
    }
}

/// The first whitespace-delimited token of `s` (empty where there is none).
pub open spec fn first_token(s: Seq<u8>) -> Seq<u8> {
    let a = skip_spaces(s, 0);
    s.subrange(a, skip_token(s, a))
}

/// The first index at or after `i` that holds a `.`, or the end.
pub open spec fn find_dot(t: Seq<u8>, i: int) -> int
    decreases t.len() - i,
{
    if 0 <= i < t.len() && t[i] != 46 {
        find_dot(t, i + 1)
    } else {
        i
    }
}

/// The first index at or after `i` that holds an `e` or an `E`, or the end.
pub open spec fn find_exp(t: Seq<u8>, i: int) -> int
    decreases t.len() - i,
{
    if 0 <= i < t.len() && t[i] != 101 && t[i] != 69 {
        find_exp(t, i + 1)
    } else {
        i
    }
}

/// A token without its leading sign, if it has one.
pub open spec fn unsigned_part(t: Seq<u8>) -> Seq<u8> {
    if t.len() > 0 && is_sign(t[0]) {
        t.subrange(1, t.len() as int)
    } else {
        t
    }
}

pub open spec fn is_negative(t: Seq<u8>) -> bool {
    t.len() > 0 && t[0] == 45
}

/// What stands before the exponent marker.
pub open spec fn mantissa(b: Seq<u8>) -> Seq<u8> {
    b.subrange(0, find_exp(b, 0))
}

pub open spec fn has_exponent(b: Seq<u8>) -> bool {
    find_exp(b, 0) < b.len()
}

/// What stands after the exponent marker (empty where there is none).
pub open spec fn exponent(b: Seq<u8>) -> Seq<u8> {
    if has_exponent(b) {
        b.subrange(find_exp(b, 0) + 1, b.len() as int)
    } else {
        Seq::empty()
    }
}

/// What stands before the first `.` of a mantissa.
pub open spec fn int_part(m: Seq<u8>) -> Seq<u8> {
    m.subrange(0, find_dot(m, 0))
}

/// What stands after the first `.` of a mantissa (empty where there is none).
pub open spec fn frac_part(m: Seq<u8>) -> Seq<u8> {
    if find_dot(m, 0) < m.len() {
        m.subrange(find_dot(m, 0) + 1, m.len() as int)
    } else {
        Seq::empty()
    }
}

/// A mantissa of the form `digits`, `digits.digits`, `digits.` or `.digits`,
/// with at least one digit.
pub open spec fn is_decimal(m: Seq<u8>) -> bool {
    &&& all_digits(int_part(m))
    &&& all_digits(frac_part(m))
    &&& int_part(m).len() + frac_part(m).len() > 0
}

/// The digits of an exponent, without its sign.
pub open spec fn exp_digits(x: Seq<u8>) -> Seq<u8> {
    unsigned_part(x)
}

/// The power of ten that an exponent denotes (zero where it is empty).
pub open spec fn exp_value(x: Seq<u8>) -> int {
    if is_negative(x) {
        -digits_value(exp_digits(x))
    } else {
        digits_value(exp_digits(x)) as int
    }
}

/// A decimal floating-point number: an optional sign, a mantissa, and
/// optionally `e` or `E` with an optionally signed run of digits.
pub open spec fn is_number(t: Seq<u8>) -> bool {
    let b = unsigned_part(t);
    &&& is_decimal(mantissa(b))
    &&& has_exponent(b) ==> exp_digits(exponent(b)).len() > 0 && all_digits(
        exp_digits(exponent(b)),
    )
}

/// The whole part of the number whose digits are `d`, with the decimal point
/// standing after the first `k` of them (before them where `k` is negative,
/// beyond them, with zeros filled in, where `k` exceeds their count).
pub open spec fn whole_part(d: Seq<u8>, k: int) -> nat {
    if k <= 0 {
        0
    } else if k <= d.len() {
        digits_value(d.subrange(0, k))
    } else {
        digits_value(d) * pow10((k - d.len()) as nat)
    }
}

/// The whole part of the magnitude of a number token.
pub open spec fn number_whole(t: Seq<u8>) -> nat {
    let b = unsigned_part(t);
    let m = mantissa(b);
    whole_part(int_part(m) + frac_part(m), int_part(m).len() + exp_value(exponent(b)))
}

/// The whole seconds that an uptime text states: its first token read as a
/// decimal floating-point number of seconds, truncated toward zero. `None`
/// where the first token is missing or is no such number, or where it is
/// negative with a nonzero whole part.
pub open spec fn uptime_in_text(s: Seq<u8>) -> Option<nat> {
    let t = first_token(s);
    if is_number(t) && !(is_negative(t) && number_whole(t) > 0) {
        Some(number_whole(t))
    } else {
        None
    }
}

/// The exponents at and beyond this bound all give a whole part of zero or
/// of more than a `u64` holds.
pub const EXPONENT_CAP: u128 = 1180591620717411303424;

fn is_space_byte(b: u8) -> (r: bool)
    ensures
        r == is_space(b),
{
    b == 32 || (9 <= b && b <= 13)
}

fn is_sign_byte(b: u8) -> (r: bool)
    ensures
        r == is_sign(b),
{
    b == 43 || b == 45
}

proof fn lemma_digits_push(s: Seq<u8>, k: int)
    requires
        0 <= k < s.len(),
    ensures
        digits_value(s.subrange(0, k + 1)) == digits_value(s.subrange(0, k)) * 10 + (s[k]
            - 48) as nat,
{
    assert(s.subrange(0, k + 1).drop_last() =~= s.subrange(0, k));
}

/// A prefix of a run of digits denotes no more than the whole run.
proof fn lemma_digits_prefix_le(t: Seq<u8>, k: int)
    requires
        all_digits(t),
        0 <= k <= t.len(),
    ensures
        digits_value(t.subrange(0, k)) <= digits_value(t),
    decreases t.len(),
{
    if k == t.len() {
        assert(t.subrange(0, k) =~= t);
    } else {
        let u = t.drop_last();
        assert(all_digits(u));
        assert(u.subrange(0, k) =~= t.subrange(0, k));
        lemma_digits_prefix_le(u, k);
    }
}

proof fn lemma_pow10_mono(i: nat, j: nat)
    requires
        i <= j,
    ensures
        1 <= pow10(i) <= pow10(j),
    decreases j,
{
    if j > 0 {
        let below = if i == j {
            (j - 1) as nat
        } else {
            i
        };
        lemma_pow10_mono(below, (j - 1) as nat);
    }
}

proof fn lemma_pow10_20()
    ensures
        pow10(20) == 100000000000000000000,
{
    reveal_with_fuel(pow10, 21);
}

/// Whether every byte of `d` is a decimal digit.
fn all_digit_bytes(d: &[u8]) -> (r: bool)
    ensures
        r == all_digits(d@),
{
    let mut i: usize = 0;
    while i < d.len()
        invariant
            i <= d.len(),
            forall|j: int| 0 <= j < i ==> is_digit(#[trigger] d@[j]),
        decreases d.len() - i,
    {
        if !(48 <= d[i] && d[i] <= 57) {
            return false;
        }
        i = i + 1;
    }
    true
}

/// The number that a run of digits denotes, where a `u64` holds it.
fn digits_to_u64(d: &[u8]) -> (r: Option<u64>)
    requires
        all_digits(d@),
    ensures
        r is Some <==> digits_value(d@) <= u64::MAX,
        r is Some ==> r.unwrap() == digits_value(d@),
{
    let mut acc: u64 = 0;
    let mut k: usize = 0;
    while k < d.len()
        invariant
            k <= d.len(),
            all_digits(d@),
            acc as nat == digits_value(d@.subrange(0, k as int)),
        decreases d.len() - k,
    {
        proof {
            lemma_digits_push(d@, k as int);
        }
        let digit = (d[k] - 48) as u64;
        let next = match acc.checked_mul(10) {
            Some(m) => m.checked_add(digit),
            None => None,
        };
        match next {
            Some(v) => {
                acc = v;
            },
            None => {
                proof {
                    lemma_digits_prefix_le(d@, k + 1);
                }
                return None;
            },
        }
        k = k + 1;
    }
    assert(d@.subrange(0, k as int) =~= d@);
    Some(acc)
}

/// The number that a run of digits denotes, or `EXPONENT_CAP` where it is
/// that much or more.
fn digits_capped(d: &[u8]) -> (r: u128)
    requires
        all_digits(d@),
    ensures
        digits_value(d@) < EXPONENT_CAP ==> r == digits_value(d@),
        digits_value(d@) >= EXPONENT_CAP ==> r == EXPONENT_CAP,
{
    let mut acc: u128 = 0;
    let mut k: usize = 0;
    while k < d.len()
        invariant
            k <= d.len(),
            all_digits(d@),
            acc as nat == digits_value(d@.subrange(0, k as int)),
            acc < EXPONENT_CAP,
        decreases d.len() - k,
    {
        proof {
            lemma_digits_push(d@, k as int);
        }
        acc = acc * 10 + (d[k] - 48) as u128;
        k = k + 1;
        if acc >= EXPONENT_CAP {
            proof {
                lemma_digits_prefix_le(d@, k as int);
            }
            return EXPONENT_CAP;
        }
    }
    assert(d@.subrange(0, k as int) =~= d@);
    acc
}

/// The bounds of the first whitespace-delimited token of `s`.
fn token_bounds(s: &[u8]) -> (r: (usize, usize))
    ensures
        r.0 <= r.1 <= s@.len(),
        s@.subrange(r.0 as int, r.1 as int) == first_token(s@),
{
    let n = s.len();
    let mut a: usize = 0;
    while a < n && is_space_byte(s[a])
        invariant
            a <= n,
            n == s@.len(),
            skip_spaces(s@, 0) == skip_spaces(s@, a as int),
        decreases n - a,
    {
        a = a + 1;
    }
    assert(skip_spaces(s@, a as int) == a);
    let mut e: usize = a;
    while e < n && !is_space_byte(s[e])
        invariant
            a <= e <= n,
            n == s@.len(),
            skip_token(s@, a as int) == skip_token(s@, e as int),
        decreases n - e,
    {
        e = e + 1;
    }
    assert(skip_token(s@, e as int) == e);
    (a, e)
}

/// Where the exponent marker of `b` stands, or its length.
fn exp_index(b: &[u8]) -> (r: usize)
    ensures
        r <= b@.len(),
        r == find_exp(b@, 0),
{
    let mut x: usize = 0;
    while x < b.len() && b[x] != 101 && b[x] != 69
        invariant
            x <= b.len(),
            find_exp(b@, 0) == find_exp(b@, x as int),
        decreases b.len() - x,
    {
        x = x + 1;
    }
    x
}

/// The digits of a mantissa and the number of them before its point.
fn mantissa_parts(m: &[u8]) -> (r: Option<(Vec<u8>, usize)>)
    ensures
        r is Some <==> is_decimal(m@),
        r is Some ==> r.unwrap().0@ == int_part(m@) + frac_part(m@) && r.unwrap().1
            == int_part(m@).len(),
{
    let mut d: usize = 0;
    while d < m.len() && m[d] != 46
        invariant
            d <= m.len(),
            find_dot(m@, 0) == find_dot(m@, d as int),
        decreases m.len() - d,
    {
        d = d + 1;
    }
    let ip = &m[0..d];
    let fp = if d < m.len() {
        &m[d + 1..m.len()]
    } else {
        &m[d..d]
    };
    assert(fp@ =~= frac_part(m@));
    if !all_digit_bytes(ip) || !all_digit_bytes(fp) || (ip.len() == 0 && fp.len() == 0) {
        return None;
    }
    let mut v: Vec<u8> = Vec::new();
    let mut i: usize = 0;
    while i < ip.len()
        invariant
            i <= ip.len(),
            v@ == ip@.subrange(0, i as int),
        decreases ip.len() - i,
    {
        v.push(ip[i]);
        i = i + 1;
        assert(v@ =~= ip@.subrange(0, i as int));
    }
    let mut i: usize = 0;
    while i < fp.len()
        invariant
            i <= fp.len(),
            v@ == ip@ + fp@.subrange(0, i as int),
        decreases fp.len() - i,
    {
        v.push(fp[i]);
        i = i + 1;
        assert(v@ =~= ip@ + fp@.subrange(0, i as int));
    }
    assert(v@ =~= ip@ + fp@);
    Some((v, d))
}


/// Where the point of `point` digits stands after shifting by an exponent of
/// magnitude `ev`, negative where `neg`.
pub open spec fn shifted_point(point: int, neg: bool, ev: nat) -> int {
    if neg {
        point - ev
    } else {
        point + ev
    }
}

/// The whole part of the number with digits `d` and the point after `point`
/// of them, shifted by an exponent of magnitude `ev` (negative where `neg`),
/// where a `u64` holds it. `mag` is `ev` capped at `EXPONENT_CAP`.
fn whole_to_u64(d: &[u8], point: usize, neg: bool, mag: u128, Ghost(ev): Ghost<nat>) -> (r:
    Option<u64>)
    requires
        all_digits(d@),
        point <= d@.len(),
        ev < EXPONENT_CAP ==> mag == ev,
        ev >= EXPONENT_CAP ==> mag == EXPONENT_CAP,
    ensures
        r is Some <==> whole_part(d@, shifted_point(point as int, neg, ev)) <= u64::MAX,
        r is Some ==> r.unwrap() == whole_part(d@, shifted_point(point as int, neg, ev)),
{
    let ghost k = shifted_point(point as int, neg, ev);
    let len = d.len();
    if neg {
        if mag >= point as u128 {
            return Some(0);
        }
        let kk = point - mag as usize;
        let prefix = &d[0..kk];
        assert(all_digits(prefix@));
        return digits_to_u64(prefix);
    }
    if mag == EXPONENT_CAP {
        let v = digits_to_u64(d);
        assert(k > len);
        assert(whole_part(d@, k) == digits_value(d@) * pow10((k - len) as nat));
        proof {
            lemma_pow10_mono(0, (k - len) as nat);
            assert(digits_value(d@) * pow10((k - len) as nat) >= digits_value(d@)) by (nonlinear_arith)
                requires
                    pow10((k - len) as nat) >= 1,
            ;
        }
        match v {
            None => {
                return None;
            },
            Some(x) => {
                if x == 0 {
                    assert(digits_value(d@) == 0);
                    assert(digits_value(d@) * pow10((k - len) as nat) == 0) by (nonlinear_arith)
                        requires
                            digits_value(d@) == 0,
                    ;
                    return Some(0);
                }
                proof {
                    lemma_pow10_mono(20, (k - len) as nat);
                    lemma_pow10_20();
                    assert(digits_value(d@) * pow10((k - len) as nat) >= pow10((k - len) as nat))
                        by (nonlinear_arith)
                        requires
                            digits_value(d@) >= 1,
                    ;
                }
                return None;
            },
        }
    }
    let kk: u128 = point as u128 + mag;
    if kk == 0 {
        return Some(0);
    }
    if kk <= len as u128 {
        let prefix = &d[0..kk as usize];
        assert(all_digits(prefix@));
        return digits_to_u64(prefix);
    }
    let v = match digits_to_u64(d) {
        Some(v) => v,
        None => {
            proof {
                lemma_pow10_mono(0, (k - len) as nat);
                assert(digits_value(d@) * pow10((k - len) as nat) >= digits_value(d@))
                    by (nonlinear_arith)
                    requires
                        pow10((k - len) as nat) >= 1,
                ;
            }
            return None;
        },
    };
    if v == 0 {
        return Some(0);
    }
    let steps: u128 = kk - len as u128;
    assert(whole_part(d@, k) == v * pow10(steps as nat));
    let mut acc: u64 = v;
    let mut i: u128 = 0;
    assert(pow10(0) == 1);
    while i < steps
        invariant
            i <= steps,
            steps == k - len,
            k > len,
            k == shifted_point(point as int, neg, ev),
            whole_part(d@, k) == v * pow10(steps as nat),
            v >= 1,
            v == digits_value(d@),
            acc == v * pow10(i as nat),
        decreases steps - i,
    {
        match acc.checked_mul(10) {
            Some(x) => {
                acc = x;
                i = i + 1;
                assert(pow10(i as nat) == 10 * pow10((i - 1) as nat));
                assert(acc == v * pow10(i as nat)) by (nonlinear_arith)
                    requires
                        acc == (v * pow10((i - 1) as nat)) * 10,
                        pow10(i as nat) == 10 * pow10((i - 1) as nat),
                ;
            },
            None => {
                proof {
                    assert(acc * 10 > u64::MAX);
                    let n = (i + 1) as nat;
                    assert(pow10(n) == 10 * pow10(i as nat));
                    lemma_pow10_mono(n, steps as nat);
                    assert(v * pow10(steps as nat) >= v * pow10(n)) by (nonlinear_arith)
                        requires
                            pow10(steps as nat) >= pow10(n),
                            v >= 1,
                    ;
                    assert(v * pow10(n) == acc * 10) by (nonlinear_arith)
                        requires
                            acc == v * pow10(i as nat),
                            pow10(n) == 10 * pow10(i as nat),
                    ;
                }
                return None;
            },
        }
    }
    Some(acc)
}

/// Reads the uptime from the text of an uptime pseudo-file, whose first
/// token is the number of seconds since boot as a decimal floating-point
/// number (`350735.47`, `+5`, `1e2`, `-0.0`). The exact value is truncated
/// toward zero, with no rounding to binary floating point on the way.
///
/// Deliberate choices: only ASCII whitespace separates tokens; a number whose
/// whole part a `u64` does not hold gives `Unavailable` rather than being
/// clamped to `u64::MAX`; so do a negative number with a nonzero whole part
/// and the words for infinity and not-a-number; a missing or malformed token
/// gives `Unavailable` too.
pub fn uptime_from_text(content: &[u8]) -> (r: Result<u64, UptimeError>)
    ensures
        r is Ok <==> (uptime_in_text(content@) is Some && uptime_in_text(content@).unwrap()
            <= u64::MAX),
        r is Ok ==> r.unwrap() as nat == uptime_in_text(content@).unwrap(),
        uptime_in_text(content@) is None ==> r == Err::<u64, UptimeError>(
            UptimeError::Unavailable,
        ),
{
    let (a, e) = token_bounds(content);
    let t = &content[a..e];
    let negative = t.len() > 0 && t[0] == 45;
    let b = if t.len() > 0 && is_sign_byte(t[0]) {
        &t[1..t.len()]
    } else {
        t
    };
    assert(b@ == unsigned_part(t@));
    let x = exp_index(b);
    let m = &b[0..x];
    assert(m@ == mantissa(b@));
    let (digits, point) = match mantissa_parts(m) {
        Some(p) => p,
        None => {
            return Err(UptimeError::Unavailable);
        },
    };
    let mut exp_negative = false;
    let mut mag: u128 = 0;
    if x < b.len() {
        let ex = &b[x + 1..b.len()];
        assert(ex@ == exponent(b@));
        let ed = if ex.len() > 0 && is_sign_byte(ex[0]) {
            &ex[1..ex.len()]
        } else {
            ex
        };
        assert(ed@ == exp_digits(ex@));
        if ed.len() == 0 || !all_digit_bytes(ed) {
            return Err(UptimeError::Unavailable);
        }
        exp_negative = ex.len() > 0 && ex[0] == 45;
        mag = digits_capped(ed);
    } else {
        assert(exponent(b@) =~= Seq::<u8>::empty());
        assert(exp_digits(exponent(b@)) =~= Seq::<u8>::empty());
    }
    let ghost ev = digits_value(exp_digits(exponent(b@)));
    assert(all_digits(digits@));
    let w = whole_to_u64(digits.as_slice(), point, exp_negative, mag, Ghost(ev));
    assert(number_whole(t@) == whole_part(digits@, shifted_point(point as int, exp_negative, ev)));
    match w {
        Some(v) => {
            if negative && v > 0 {
                Err(UptimeError::Unavailable)
            } else {
                Ok(v)
            }
        },
        None => Err(UptimeError::Unavailable),
    }
}

} // verus!
