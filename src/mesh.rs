//! Triangle lists read from a mesh: vertices grouped in threes.
use vstd::prelude::*;

use crate::fixed::{sat, saturate, Coord, COORD_MAX, ONE};
use crate::geometry::{Point, Triangle};

verus! {

/// Why a mesh could not be read.
#[derive(Clone, Copy, Debug, PartialEq, Eq, Structural)]
pub enum MeshError {
    /// The first line holds no triangle count.
    MissingCount,
    /// A vertex line holds a field that is not a number.
    BadCoordinate,
    /// A vertex has a zero `w`.
    ZeroWeight,
    /// The number of triangles differs from the count declared.
    CountMismatch { expected: usize, found: usize },
}

/// The number of significant digits of a number field that are read; later
/// digits lie past the resolution of a coordinate and are dropped.
pub const SIG_DIGITS: usize = 18;

pub open spec fn is_digit(b: u8) -> bool {
    48 <= b <= 57
}

pub open spec fn all_digits(s: Seq<u8>) -> bool {
    forall|i: int| 0 <= i < s.len() ==> is_digit(#[trigger] s[i])
}

/// The value of a string of decimal digits.
pub open spec fn digits_value(s: Seq<u8>) -> int
    decreases s.len(),
{
    if s.len() == 0 {
        0
    } else {
        digits_value(s.drop_last()) * 10 + (s.last() - 48)
    }
}

pub open spec fn pow10(n: nat) -> int
    decreases n,
{
    if n == 0 {
        1
    } else {
        10 * pow10((n - 1) as nat)
    }
}

/// The index of the first byte `a` or `b` in `s` from `i` on, or the length
/// of `s`.
pub open spec fn first_of(s: Seq<u8>, a: u8, b: u8, i: int) -> int
    decreases s.len() - i,
{
    if i >= s.len() {
        s.len() as int
    } else if s[i] == a || s[i] == b {
        i
    } else {
        first_of(s, a, b, i + 1)
    }
}

/// `s` without its leading zeros.
pub open spec fn strip_zeros(s: Seq<u8>) -> Seq<u8>
    decreases s.len(),
{
    if s.len() > 0 && s[0] == 48 {
        strip_zeros(s.drop_first())
    } else {
        s
    }
}

/// `v * ONE * 10^k`, rounded down where `k` is negative.
pub open spec fn scaled_by_pow10(v: int, k: int) -> int {
    if k >= 0 {
        v * ONE * pow10(k as nat)
    } else {
        (v * ONE) / pow10((-k) as nat)
    }
}

/// The digits of a mantissa `digits[.digits]` with at least one digit, and
/// the number of them after the point.
pub open spec fn mantissa_of(m: Seq<u8>) -> Option<(Seq<u8>, int)> {
    let d = first_of(m, 46, 46, 0);
    let ip = m.subrange(0, d);
    let fp = if d < m.len() { m.subrange(d + 1, m.len() as int) } else { Seq::empty() };
    if !all_digits(ip) || !all_digits(fp) || ip.len() + fp.len() == 0 {
        None
    } else {
        Some((ip + fp, fp.len() as int))
    }
}

/// The value of an exponent `[+-]digits` (the text after `e` or `E`).
pub open spec fn exponent_of(x: Seq<u8>) -> Option<int> {
    let neg = x.len() > 0 && x[0] == 45;
    let es = if x.len() > 0 && (x[0] == 45 || x[0] == 43) { 1int } else { 0int };
    let ed = x.subrange(es, x.len() as int);
    if ed.len() == 0 || !all_digits(ed) {
        None
    } else {
        Some(if neg { -digits_value(ed) } else { digits_value(ed) })
    }
}

/// The magnitude, raw, of an unsigned number `mantissa[(e|E)exponent]`.
pub open spec fn number_of(b: Seq<u8>) -> Option<int> {
    let e = first_of(b, 101, 69, 0);
    let ex = if e < b.len() { exponent_of(b.subrange(e + 1, b.len() as int)) } else { Some(0int) };
    match (mantissa_of(b.subrange(0, e)), ex) {
        (Some(m), Some(ev)) => Some(mantissa_mag(m.0, m.1, ev)),
        _ => None,
    }
}

/// The fixed-point value of a number field `[+-]digits[.digits][(e|E)[+-]digits]`
/// with at least one mantissa digit: the first `SIG_DIGITS` significant
/// digits are read, the value is rounded down to a raw unit, the sign
/// applied, and the result saturated. `None` where the field does not match.
pub open spec fn coord_of(t: Seq<u8>) -> Option<Coord> {
    if t.len() == 0 {
        None
    } else {
        let neg = t[0] == 45;
        let start = if t[0] == 45 || t[0] == 43 { 1int } else { 0int };
        match number_of(t.subrange(start, t.len() as int)) {
            Some(mag) => Some(sat(if neg { -mag } else { mag }) as Coord),
            None => None,
        }
    }
}

/// The digits of a triangle count field, after an optional `+`.
pub open spec fn count_digits(line: Seq<u8>) -> Seq<u8> {
    if line.len() > 0 && line[0] == 43 {
        line.drop_first()
    } else {
        line
    }
}

/// The value of a triangle count field: decimal digits after an optional `+`.
pub open spec fn count_of(line: Seq<u8>) -> Option<usize> {
    let d = count_digits(line);
    if d.len() == 0 || !all_digits(d) || digits_value(d) > usize::MAX {
        None
    } else {
        Some(digits_value(d) as usize)
    }
}

proof fn lemma_digits_bound(s: Seq<u8>)
    requires
        all_digits(s),
    ensures
        0 <= digits_value(s) < pow10(s.len()),
    decreases s.len(),
{
    if s.len() > 0 {
        assert(all_digits(s.drop_last()));
        lemma_digits_bound(s.drop_last());
        assert(is_digit(s[s.len() - 1]));
    }
}

proof fn lemma_pow10_mono(a: nat, b: nat)
    requires
        a <= b,
    ensures
        1 <= pow10(a) <= pow10(b),
    decreases b,
{
    if b > 0 {
        if a < b {
            lemma_pow10_mono(a, (b - 1) as nat);
        } else {
            lemma_pow10_mono((a - 1) as nat, (b - 1) as nat);
        }
    }
}

proof fn lemma_pow10_values()
    ensures
        pow10(15) == 1_000_000_000_000_000,
        pow10(18) == 1_000_000_000_000_000_000,
        pow10(24) == 1_000_000_000_000_000_000_000_000,
{
    reveal_with_fuel(pow10, 25);
}

/// Large scales saturate, small ones vanish.
proof fn lemma_scaled_extremes(v: int, k: int)
    requires
        0 <= v < pow10(SIG_DIGITS as nat),
    ensures
        v >= 1 && k >= 15 ==> scaled_by_pow10(v, k) > COORD_MAX,
        k <= -24 ==> scaled_by_pow10(v, k) == 0,
        scaled_by_pow10(v, k) >= 0,
{
    lemma_pow10_values();
    assert(ONE == 65536);
    if k >= 0 {
        lemma_pow10_mono(0, k as nat);
        if k >= 15 {
            lemma_pow10_mono(15, k as nat);
        }
        let p = pow10(k as nat);
        assert(v * 65536 * p >= 0) by (nonlinear_arith)
            requires
                v >= 0,
                p >= 1,
        ;
        if v >= 1 && k >= 15 {
            assert(v * 65536 * p >= 65536 * 1_000_000_000_000_000) by (nonlinear_arith)
                requires
                    v >= 1,
                    p >= 1_000_000_000_000_000,
            ;
        }
    } else {
        lemma_pow10_mono(0, (-k) as nat);
        let p = pow10((-k) as nat);
        assert((v * 65536) / p >= 0) by (nonlinear_arith)
            requires
                v >= 0,
                p >= 1,
        ;
        if k <= -24 {
            lemma_pow10_mono(24, (-k) as nat);
            assert((v * 65536) / p == 0) by (nonlinear_arith)
                requires
                    0 <= v * 65536 < p,
            ;
        }
    }
}

proof fn lemma_first_of_range(s: Seq<u8>, a: u8, b: u8, i: int)
    requires
        0 <= i <= s.len(),
    ensures
        i <= first_of(s, a, b, i) <= s.len(),
    decreases s.len() - i,
{
    if i < s.len() && s[i] != a && s[i] != b {
        lemma_first_of_range(s, a, b, i + 1);
    }
}

/// The index of the first byte `a` or `b` in `s[from..to]`, or `to`.
fn find_byte(s: &[u8], from: usize, to: usize, a: u8, b: u8) -> (r: usize)
    requires
        from <= to <= s@.len(),
    ensures
        r == first_of(s@.subrange(from as int, to as int), a, b, 0) + from,
        from <= r <= to,
{
    let ghost body = s@.subrange(from as int, to as int);
    let mut i = from;
    while i < to
        invariant
            from <= i <= to <= s@.len(),
            body == s@.subrange(from as int, to as int),
            first_of(body, a, b, 0) == first_of(body, a, b, i - from),
        decreases to - i,
    {
        if s[i] == a || s[i] == b {
            return i;
        }
        i += 1;
    }
    proof {
        lemma_first_of_range(body, a, b, 0);
    }
    i
}

/// Whether `s[from..to]` is all digits.
fn all_digits_in(s: &[u8], from: usize, to: usize) -> (r: bool)
    requires
        from <= to <= s@.len(),
    ensures
        r == all_digits(s@.subrange(from as int, to as int)),
{
    let ghost sub = s@.subrange(from as int, to as int);
    let mut i = from;
    while i < to
        invariant
            from <= i <= to <= s@.len(),
            sub == s@.subrange(from as int, to as int),
            forall|k: int| 0 <= k < i - from ==> is_digit(#[trigger] sub[k]),
        decreases to - i,
    {
        if s[i] < 48 || s[i] > 57 {
            assert(!is_digit(sub[i - from]));
            return false;
        }
        i += 1;
    }
    true
}

/// The value of the digits `s[from..to]`, limited to `cap`.
fn digits_capped(s: &[u8], from: usize, to: usize, cap: u128) -> (r: u128)
    requires
        from <= to <= s@.len(),
        all_digits(s@.subrange(from as int, to as int)),
        cap <= 0x1_0000_0000_0000_0000_0000_0000,
    ensures
        r == (if digits_value(s@.subrange(from as int, to as int)) < cap {
            digits_value(s@.subrange(from as int, to as int))
        } else {
            cap as int
        }),
{
    let ghost sub = s@.subrange(from as int, to as int);
    let mut v: u128 = 0;
    let mut i = from;
    while i < to
        invariant
            from <= i <= to <= s@.len(),
            sub == s@.subrange(from as int, to as int),
            all_digits(sub),
            cap <= 0x1_0000_0000_0000_0000_0000_0000,
            v == (if digits_value(sub.take(i - from)) < cap {
                digits_value(sub.take(i - from))
            } else {
                cap as int
            }),
            digits_value(sub.take(i - from)) >= 0,
        decreases to - i,
    {
        let ghost pre = sub.take(i - from);
        assert(sub.take(i - from + 1).drop_last() =~= pre);
        assert(is_digit(sub[i - from]));
        let dgt = (s[i] - 48) as u128;
        if v < cap {
            let w = v * 10 + dgt;
            v = if w < cap { w } else { cap };
        }
        i += 1;
    }
    assert(sub.take(to - from) =~= sub);
    v
}

/// `10^k`.
fn pow10_exec(k: u32) -> (r: u128)
    requires
        k <= 24,
    ensures
        r == pow10(k as nat),
{
    let mut r: u128 = 1;
    let mut i: u32 = 0;
    while i < k
        invariant
            i <= k <= 24,
            r == pow10(i as nat),
        decreases k - i,
    {
        proof {
            lemma_pow10_mono((i + 1) as nat, 24);
            lemma_pow10_values();
        }
        r = r * 10;
        i += 1;
    }
    r
}

/// The index of the first byte of `s` other than `0`: `s` from there on is
/// `s` without its leading zeros.
fn skip_zeros(s: &Vec<u8>) -> (r: usize)
    ensures
        r <= s@.len(),
        strip_zeros(s@) == s@.subrange(r as int, s@.len() as int),
{
    let mut j: usize = 0;
    assert(s@.subrange(0, s@.len() as int) =~= s@);
    while j < s.len() && s[j] == 48
        invariant
            j <= s@.len(),
            strip_zeros(s@) == strip_zeros(s@.subrange(j as int, s@.len() as int)),
        decreases s@.len() - j,
    {
        assert(s@.subrange(j as int, s@.len() as int).drop_first() =~= s@.subrange(j + 1, s@.len() as int));
        j += 1;
    }
    j
}

/// `dv * ONE * 10^k` (see `scaled_by_pow10`), or just past the range of
/// coordinates where it lies beyond.
fn magnitude_of(dv: u128, k: i128) -> (r: u128)
    requires
        dv < pow10(SIG_DIGITS as nat),
    ensures
        r == scaled_by_pow10(dv as int, k as int) || (r == COORD_MAX + 1 && scaled_by_pow10(dv as int, k as int)
            > COORD_MAX),
        dv >= 1 && k >= 15 ==> r == COORD_MAX + 1,
        r <= 1_000_000_000_000_000_000 * 65536 * 100_000_000_000_000,
{
    proof {
        lemma_scaled_extremes(dv as int, k as int);
        lemma_pow10_values();
    }
    assert(ONE == 65536);
    if dv == 0 {
        assert(scaled_by_pow10(0, k as int) == 0) by {
            if k < 0 {
                lemma_pow10_mono(0, (-k) as nat);
            }
        }
        0
    } else if k >= 15 {
        COORD_MAX as u128 + 1
    } else if k >= 0 {
        let p = pow10_exec(k as u32);
        proof {
            lemma_pow10_mono(k as nat, 14);
            reveal_with_fuel(pow10, 15);
        }
        assert(dv * 65536 * p <= 1_000_000_000_000_000_000 * 65536 * 100_000_000_000_000) by (nonlinear_arith)
            requires
                dv <= 1_000_000_000_000_000_000,
                p <= 100_000_000_000_000,
        ;
        dv * 65536 * p
    } else if k <= -24 {
        0
    } else {
        let p = pow10_exec((-k) as u32);
        proof {
            lemma_pow10_mono(0, (-k) as nat);
        }
        (dv * 65536) / p
    }
}

proof fn lemma_scaled_zero(k: int)
    ensures
        scaled_by_pow10(0, k) == 0,
{
    if k < 0 {
        lemma_pow10_mono(0, (-k) as nat);
    }
}

/// The magnitude of a number whose mantissa digits are `digits`, `lf` of them
/// after the point, and whose exponent is `ev`.
pub open spec fn mantissa_mag(digits: Seq<u8>, lf: int, ev: int) -> int {
    let sig = strip_zeros(digits);
    let kept = if sig.len() > SIG_DIGITS { SIG_DIGITS as int } else { sig.len() as int };
    scaled_by_pow10(digits_value(sig.take(kept)), ev - lf + (sig.len() - kept))
}

/// The magnitude of a number (see `mantissa_mag`), for an exponent of
/// magnitude `e_abs` given limited to `cap`.
fn mantissa_magnitude(ds: &Vec<u8>, lf: usize, e_capped: u128, eneg: bool, e_abs: Ghost<int>, cap: u128) -> (r: u128)
    requires
        all_digits(ds@),
        lf <= ds@.len(),
        e_abs@ >= 0,
        ds@.len() + 100 <= cap <= 0x1_0000_0000_0000_0000_0000_0000,
        e_capped == (if e_abs@ < cap { e_abs@ } else { cap as int }),
    ensures
        r == mantissa_mag(ds@, lf as int, if eneg { -e_abs@ } else { e_abs@ }) || (r == COORD_MAX + 1
            && mantissa_mag(ds@, lf as int, if eneg { -e_abs@ } else { e_abs@ }) > COORD_MAX),
        r <= 1_000_000_000_000_000_000 * 65536 * 100_000_000_000_000,
{
    let j0 = skip_zeros(ds);
    let siglen = ds.len() - j0;
    let kept = if siglen > SIG_DIGITS { SIG_DIGITS } else { siglen };
    let ghost sig = strip_zeros(ds@);
    assert(sig.take(kept as int) =~= ds@.subrange(j0 as int, (j0 + kept) as int));
    assert(all_digits(ds@.subrange(j0 as int, (j0 + kept) as int)));
    proof {
        lemma_digits_bound(sig.take(kept as int));
        lemma_pow10_mono(kept as nat, SIG_DIGITS as nat);
        lemma_pow10_values();
    }
    let dv = digits_capped(ds.as_slice(), j0, j0 + kept, 0x1_0000_0000_0000_0000_0000_0000);
    let dropped = siglen - kept;
    let k: i128 = if eneg { -(e_capped as i128) } else { e_capped as i128 } - lf as i128 + dropped as i128;
    let ghost ev = if eneg { -e_abs@ } else { e_abs@ };
    let ghost true_k = ev - lf + (sig.len() - kept);
    proof {
        lemma_scaled_extremes(dv as int, k as int);
        lemma_scaled_extremes(dv as int, true_k);
    }
    assert(true_k != k ==> (k >= 15 && true_k >= 15) || (k <= -24 && true_k <= -24));
    assert(dv == digits_value(sig.take(kept as int)));
    assert(mantissa_mag(ds@, lf as int, ev) == scaled_by_pow10(dv as int, true_k));
    proof {
        lemma_scaled_zero(k as int);
        lemma_scaled_zero(true_k);
    }
    magnitude_of(dv, k)
}

/// The bytes `s[a..b]` followed by `s[c..d]`.
fn collect_digits(s: &[u8], a: usize, b: usize, c: usize, d: usize) -> (r: Vec<u8>)
    requires
        a <= b <= c <= d <= s@.len(),
    ensures
        r@ == s@.subrange(a as int, b as int) + s@.subrange(c as int, d as int),
{
    let mut ds: Vec<u8> = Vec::new();
    let mut i = a;
    while i < b
        invariant
            a <= i <= b <= c <= d <= s@.len(),
            ds@ == s@.subrange(a as int, i as int),
        decreases b - i,
    {
        ds.push(s[i]);
        i += 1;
        assert(ds@ =~= s@.subrange(a as int, i as int));
    }
    let mut i = c;
    while i < d
        invariant
            a <= b <= c <= i <= d <= s@.len(),
            ds@ == s@.subrange(a as int, b as int) + s@.subrange(c as int, i as int),
        decreases d - i,
    {
        ds.push(s[i]);
        i += 1;
        assert(ds@ =~= s@.subrange(a as int, b as int) + s@.subrange(c as int, i as int));
    }
    ds
}

/// The mantissa `s[from..to]` (see `mantissa_of`).
fn parse_mantissa(s: &[u8], from: usize, to: usize) -> (r: Option<(Vec<u8>, usize)>)
    requires
        from <= to <= s@.len(),
    ensures
        r is None <==> mantissa_of(s@.subrange(from as int, to as int)) is None,
        r matches Some(p) ==> mantissa_of(s@.subrange(from as int, to as int)) == Some((p.0@, p.1 as int))
            && p.1 <= p.0@.len() && p.0@.len() <= to - from,
{
    let ghost m = s@.subrange(from as int, to as int);
    let d = find_byte(s, from, to, 46, 46);
    let ghost gd = d - from;
    let fstart = if d < to { d + 1 } else { to };
    assert(m.subrange(0, gd) =~= s@.subrange(from as int, d as int));
    assert((if gd < m.len() { m.subrange(gd + 1, m.len() as int) } else { Seq::<u8>::empty() }) =~= s@.subrange(
        fstart as int,
        to as int,
    ));
    if !all_digits_in(s, from, d) || !all_digits_in(s, fstart, to) || (d - from) + (to - fstart) == 0 {
        return None;
    }
    let ds = collect_digits(s, from, d, fstart, to);
    Some((ds, to - fstart))
}

/// The exponent `s[from..to]` (see `exponent_of`): its sign and its
/// magnitude `e` (ghost), the latter limited to `cap`.
fn parse_exponent(s: &[u8], from: usize, to: usize, cap: u128) -> (r: Option<(bool, u128, Ghost<int>)>)
    requires
        from <= to <= s@.len(),
        cap <= 0x1_0000_0000_0000_0000_0000_0000,
    ensures
        r is None <==> exponent_of(s@.subrange(from as int, to as int)) is None,
        r matches Some(p) ==> p.2@ >= 0 && exponent_of(s@.subrange(from as int, to as int)) == Some(
            if p.0 { -p.2@ } else { p.2@ },
        ) && p.1 == (if p.2@ < cap { p.2@ } else { cap as int }),
{
    let ghost x = s@.subrange(from as int, to as int);
    let sign = from < to && (s[from] == 45 || s[from] == 43);
    let neg = from < to && s[from] == 45;
    let es = if sign { from + 1 } else { from };
    assert(x.subrange(if x.len() > 0 && (x[0] == 45 || x[0] == 43) { 1int } else { 0int }, x.len() as int)
        =~= s@.subrange(es as int, to as int));
    if es >= to || !all_digits_in(s, es, to) {
        return None;
    }
    proof {
        lemma_digits_bound(s@.subrange(es as int, to as int));
    }
    let c = digits_capped(s, es, to, cap);
    Some((neg, c, Ghost(digits_value(s@.subrange(es as int, to as int)))))
}

/// The magnitude of the unsigned number `s[from..]` (see `number_of`), or
/// just past the range of coordinates where it lies beyond.
fn parse_number(s: &[u8], from: usize) -> (r: Option<u128>)
    requires
        from <= s@.len(),
    ensures
        r is None <==> number_of(s@.subrange(from as int, s@.len() as int)) is None,
        r matches Some(v) ==> ({
            let m = number_of(s@.subrange(from as int, s@.len() as int))->Some_0;
            v == m || (v == COORD_MAX + 1 && m > COORD_MAX)
        }),
        r matches Some(v) ==> v <= 1_000_000_000_000_000_000 * 65536 * 100_000_000_000_000,
{
    let n = s.len();
    let ghost b = s@.subrange(from as int, n as int);
    let e = find_byte(s, from, n, 101, 69);
    let ghost ge = e - from;
    assert(b.subrange(0, ge) =~= s@.subrange(from as int, e as int));
    let cap = n as u128 + 100;
    let (eneg, ecap, eabs): (bool, u128, Ghost<int>) = if e < n {
        assert(b.subrange(ge + 1, b.len() as int) =~= s@.subrange(e + 1, n as int));
        match parse_exponent(s, e + 1, n, cap) {
            Some(p) => p,
            None => {
                return None;
            },
        }
    } else {
        (false, 0, Ghost(0))
    };
    let (ds, lf) = match parse_mantissa(s, from, e) {
        Some(p) => p,
        None => {
            return None;
        },
    };
    assert(ds@.len() <= n);
    let mag = mantissa_magnitude(&ds, lf, ecap, eneg, eabs, cap);
    Some(mag)
}

/// The fixed-point value of a number field (see `coord_of`).
pub fn parse_coord(t: &[u8]) -> (r: Option<Coord>)
    ensures
        r == coord_of(t@),
{
    let n = t.len();
    if n == 0 {
        return None;
    }
    let neg = t[0] == 45;
    let start: usize = if t[0] == 45 || t[0] == 43 { 1 } else { 0 };
    match parse_number(t, start) {
        None => None,
        Some(mag) => {
            let v: i128 = if neg { -(mag as i128) } else { mag as i128 };
            Some(saturate(v))
        },
    }
}

/// The value of a triangle count field (see `count_of`).
pub fn parse_count(line: &[u8]) -> (r: Option<usize>)
    ensures
        r == count_of(line@),
{
    let n = line.len();
    let from: usize = if n > 0 && line[0] == 43 { 1 } else { 0 };
    let ghost s = line@.subrange(from as int, n as int);
    assert(s =~= count_digits(line@));
    if from == n {
        return None;
    }
    let mut v: u128 = 0;
    let mut big = false;
    let mut i: usize = from;
    while i < n
        invariant
            from <= i <= n,
            n == line@.len(),
            s == line@.subrange(from as int, n as int),
            s == count_digits(line@),
            all_digits(s.take(i - from)),
            digits_value(s.take(i - from)) >= 0,
            big ==> digits_value(s.take(i - from)) > usize::MAX,
            !big ==> v == digits_value(s.take(i - from)) && v <= usize::MAX,
        decreases n - i,
    {
        let b = line[i];
        if b < 48 || b > 57 {
            assert(!is_digit(s[i - from]));
            assert(!all_digits(s));
            return None;
        }
        proof {
            assert(s.take(i - from + 1).drop_last() =~= s.take(i - from));
            assert forall|k: int| 0 <= k < i - from + 1 implies is_digit(#[trigger] s.take(i - from + 1)[k]) by {
                if k < i - from {
                    assert(s.take(i - from + 1)[k] == s.take(i - from)[k]);
                }
            }
        }
        if !big {
            v = v * 10 + (b - 48) as u128;
            if v > usize::MAX as u128 {
                big = true;
            }
        }
        i += 1;
    }
    assert(s.take(n - from) =~= s);
    if big {
        None
    } else {
        Some(v as usize)
    }
}

/// The coordinates of a vertex line's fields, each parsed.
pub open spec fn coords_of(fields: Seq<Seq<u8>>) -> Seq<Coord> {
    fields.map(|i: int, f: Seq<u8>| coord_of(f).unwrap())
}

/// The contents of byte vectors.
pub open spec fn views(v: Seq<Vec<u8>>) -> Seq<Seq<u8>> {
    v.map(|i: int, f: Vec<u8>| f@)
}

/// The vertex that a line with the given number fields stands for: `None`
/// for a line with no fields, an error where a field is no number or the
/// weight `w` (a fourth field) is zero.
pub open spec fn vertex_of(fields: Seq<Seq<u8>>) -> Result<Option<Point>, MeshError> {
    if fields.len() == 0 {
        Ok(None)
    } else if exists|i: int| 0 <= i < fields.len() && coord_of(#[trigger] fields[i]) is None {
        Err(MeshError::BadCoordinate)
    } else {
        let c = coords_of(fields);
        match Point::from_coords(
            Point::entry_or(c, 0, 0),
            Point::entry_or(c, 1, 0),
            Point::entry_or(c, 2, 0),
            Point::entry_or(c, 3, ONE),
        ) {
            Some(p) => Ok(Some(p)),
            None => Err(MeshError::ZeroWeight),
        }
    }
}

/// The vertex of a line whose fields, split at whitespace with any comment
/// removed, are `fields` (see `vertex_of`).
pub fn parse_vertex(fields: &Vec<Vec<u8>>) -> (r: Result<Option<Point>, MeshError>)
    ensures
        r == vertex_of(views(fields@)),
        r matches Ok(Some(p)) ==> p.wf(),
{
    let n = fields.len();
    if n == 0 {
        return Ok(None);
    }
    let mut coords: Vec<Coord> = Vec::new();
    let mut i: usize = 0;
    while i < n
        invariant
            0 <= i <= n,
            n == fields@.len(),
            forall|k: int| 0 <= k < i ==> coord_of(#[trigger] views(fields@)[k]) is Some,
            coords@ == coords_of(views(fields@)).take(i as int),
        decreases n - i,
    {
        match parse_coord(fields[i].as_slice()) {
            Some(c) => coords.push(c),
            None => {
                assert(coord_of(views(fields@)[i as int]) is None);
                return Err(MeshError::BadCoordinate);
            },
        }
        i += 1;
        assert(coords@ =~= coords_of(views(fields@)).take(i as int));
    }
    assert(coords@ =~= coords_of(views(fields@)));
    match Point::from_vec(coords) {
        Some(p) => Ok(Some(p)),
        None => Err(MeshError::ZeroWeight),
    }
}

/// The triangles made of each three consecutive vertices; a last one or two
/// vertices are left over.
pub open spec fn group_spec(v: Seq<Point>) -> Seq<Triangle> {
    Seq::new(v.len() / 3, |k: int| Triangle { p1: v[3 * k], p2: v[3 * k + 1], p3: v[3 * k + 2] })
}

/// The triangles of a mesh whose first line declared `expected` triangles
/// and whose vertex lines gave `vertices`, in order: each three consecutive
/// vertices make one triangle. An error where the number of triangles so
/// made is not `expected`.
pub fn group_triangles(expected: usize, vertices: &Vec<Point>) -> (r: Result<Vec<Triangle>, MeshError>)
    ensures
        vertices@.len() / 3 == expected ==> (r matches Ok(t) && t@ == group_spec(vertices@)),
        vertices@.len() / 3 != expected ==> r == Err::<Vec<Triangle>, MeshError>(
            MeshError::CountMismatch { expected, found: (vertices@.len() / 3) as usize },
        ),
{
    let len = vertices.len();
    let n = len / 3;
    let mut tris: Vec<Triangle> = Vec::new();
    let mut k: usize = 0;
    while k < n
        invariant
            n == vertices@.len() / 3,
            3 * n <= len,
            len == vertices@.len(),
            k <= n,
            tris@ == group_spec(vertices@).take(k as int),
        decreases n - k,
    {
        let t = Triangle { p1: vertices[3 * k], p2: vertices[3 * k + 1], p3: vertices[3 * k + 2] };
        tris.push(t);
        k += 1;
        assert(tris@ =~= group_spec(vertices@).take(k as int));
    }
    if n == expected {
        assert(tris@ =~= group_spec(vertices@));
        Ok(tris)
    } else {
        Err(MeshError::CountMismatch { expected, found: n })
    }
}

/// The pieces of `s` between the bytes `sep`: one more than there are
/// separators, each possibly empty.
pub open spec fn split_spec(s: Seq<u8>, sep: u8) -> Seq<Seq<u8>>
    decreases s.len(),
{
    if s.len() == 0 {
        seq![Seq::empty()]
    } else {
        let p = split_spec(s.drop_last(), sep);
        if s.last() == sep {
            p.push(Seq::empty())
        } else {
            p.update(p.len() - 1, p.last().push(s.last()))
        }
    }
}

proof fn lemma_split_nonempty(s: Seq<u8>, sep: u8)
    ensures
        split_spec(s, sep).len() >= 1,
    decreases s.len(),
{
    if s.len() > 0 {
        lemma_split_nonempty(s.drop_last(), sep);
    }
}

pub open spec fn is_space(b: u8) -> bool {
    b == 32 || b == 9 || b == 13
}

/// The fields of `s`: its maximal runs of bytes other than space, tab and
/// carriage return, in order.
pub open spec fn fields_spec(s: Seq<u8>) -> Seq<Seq<u8>>
    decreases s.len(),
{
    if s.len() == 0 {
        Seq::empty()
    } else {
        let f = fields_spec(s.drop_last());
        if is_space(s.last()) {
            f
        } else if s.len() == 1 || is_space(s[s.len() - 2]) {
            f.push(seq![s.last()])
        } else {
            f.update(f.len() - 1, f.last().push(s.last()))
        }
    }
}

proof fn lemma_fields_nonempty(s: Seq<u8>)
    requires
        s.len() > 0,
        !is_space(s.last()),
    ensures
        fields_spec(s).len() >= 1,
    decreases s.len(),
{
    if s.len() > 1 {
        let d = s.drop_last();
        if !is_space(s[s.len() - 2]) {
            assert(d.last() == s[s.len() - 2]);
            lemma_fields_nonempty(d);
        }
    }
}

/// A line without its comment: the bytes before the first `#`.
pub open spec fn content_of(line: Seq<u8>) -> Seq<u8> {
    split_spec(line, 35)[0]
}

/// The fields of each line of `lines` from `from` on, parsed as vertices, in
/// order; the first error met where a line holds no vertex.
pub open spec fn vertices_of(lines: Seq<Seq<u8>>, n: int) -> Result<Seq<Point>, MeshError>
    decreases n,
{
    if n <= 1 {
        Ok(Seq::empty())
    } else {
        match vertices_of(lines, n - 1) {
            Err(e) => Err(e),
            Ok(v) => match vertex_of(fields_spec(content_of(lines[n - 1]))) {
                Err(e) => Err(e),
                Ok(None) => Ok(v),
                Ok(Some(p)) => Ok(v.push(p)),
            },
        }
    }
}

/// The triangles of a mesh text: its first line holds the triangle count
/// as one field, each later line one vertex as number fields (after `#` a
/// comment; lines without fields are skipped), and each three consecutive
/// vertices make one triangle.
pub open spec fn mesh_of(text: Seq<u8>) -> Result<Seq<Triangle>, MeshError> {
    let lines = split_spec(text, 10);
    let head = fields_spec(content_of(lines[0]));
    if head.len() != 1 || count_of(head[0]) is None {
        Err(MeshError::MissingCount)
    } else {
        match vertices_of(lines, lines.len() as int) {
            Err(e) => Err(e),
            Ok(v) => {
                let n = count_of(head[0]).unwrap();
                if v.len() / 3 == n {
                    Ok(group_spec(v))
                } else {
                    Err(MeshError::CountMismatch { expected: n, found: (v.len() / 3) as usize })
                }
            },
        }
    }
}

/// The pieces of `s` between the bytes `sep` (see `split_spec`).
pub fn split_bytes(s: &[u8], sep: u8) -> (r: Vec<Vec<u8>>)
    ensures
        views(r@) == split_spec(s@, sep),
{
    let mut done: Vec<Vec<u8>> = Vec::new();
    let mut cur: Vec<u8> = Vec::new();
    let mut i: usize = 0;
    assert(s@.take(0) =~= Seq::<u8>::empty());
    assert(views(done@).push(cur@) =~= split_spec(s@.take(0), sep));
    while i < s.len()
        invariant
            i <= s@.len(),
            views(done@).push(cur@) == split_spec(s@.take(i as int), sep),
        decreases s@.len() - i,
    {
        let b = s[i];
        assert(s@.take(i + 1).drop_last() =~= s@.take(i as int));
        if b == sep {
            done.push(cur);
            cur = Vec::new();
            assert(views(done@).push(cur@) =~= split_spec(s@.take(i + 1), sep));
        } else {
            let ghost before = views(done@).push(cur@);
            cur.push(b);
            assert(views(done@).push(cur@) =~= before.update(before.len() - 1, before.last().push(b)));
        }
        i += 1;
    }
    assert(s@.take(s@.len() as int) =~= s@);
    done.push(cur);
    assert(views(done@) =~= split_spec(s@, sep));
    done
}

/// The fields of `s` (see `fields_spec`).
pub fn split_fields(s: &[u8]) -> (r: Vec<Vec<u8>>)
    ensures
        views(r@) == fields_spec(s@),
{
    let mut done: Vec<Vec<u8>> = Vec::new();
    let mut i: usize = 0;
    assert(s@.take(0) =~= Seq::<u8>::empty());
    assert(views(done@) =~= fields_spec(s@.take(0)));
    while i < s.len()
        invariant
            i <= s@.len(),
            views(done@) == fields_spec(s@.take(i as int)),
        decreases s@.len() - i,
    {
        let b = s[i];
        let ghost t = s@.take(i + 1);
        assert(t.drop_last() =~= s@.take(i as int));
        if b == 32 || b == 9 || b == 13 {
        } else if i == 0 || s[i - 1] == 32 || s[i - 1] == 9 || s[i - 1] == 13 {
            let mut f: Vec<u8> = Vec::new();
            f.push(b);
            done.push(f);
            assert(views(done@) =~= fields_spec(t));
        } else {
            proof {
                lemma_fields_nonempty(s@.take(i as int));
            }
            let last = done.len() - 1;
            let mut f = done[last].clone();
            assert(f@ == done@[last as int]@);
            f.push(b);
            done.set(last, f);
            assert(views(done@) =~= fields_spec(t));
        }
        i += 1;
    }
    assert(s@.take(s@.len() as int) =~= s@);
    done
}

/// The fields of a line once its comment is cut off.
fn line_fields(line: &[u8]) -> (r: Vec<Vec<u8>>)
    ensures
        views(r@) == fields_spec(content_of(line@)),
{
    let parts = split_bytes(line, 35);
    proof {
        lemma_split_nonempty(line@, 35);
    }
    assert(parts[0]@ == content_of(line@));
    split_fields(parts[0].as_slice())
}

/// The triangles of a mesh text (see `mesh_of`).
#[verifier::rlimit(40)]
pub fn parse_mesh(text: &[u8]) -> (r: Result<Vec<Triangle>, MeshError>)
    ensures
        r matches Ok(t) ==> mesh_of(text@) == Ok::<Seq<Triangle>, MeshError>(t@),
        r matches Err(e) ==> mesh_of(text@) == Err::<Seq<Triangle>, MeshError>(e),
        r matches Ok(t) ==> forall|i: int| 0 <= i < t@.len() ==> (#[trigger] t@[i]).wf(),
{
    let lines = split_bytes(text, 10);
    proof {
        lemma_split_nonempty(text@, 10);
    }
    let ghost ls = split_spec(text@, 10);
    assert(lines@[0]@ == ls[0]);
    let head = line_fields(lines[0].as_slice());
    if head.len() != 1 {
        return Err(MeshError::MissingCount);
    }
    assert(views(head@)[0] == head@[0]@);
    let count = match parse_count(head[0].as_slice()) {
        Some(n) => n,
        None => {
            return Err(MeshError::MissingCount);
        },
    };
    let mut vertices: Vec<Point> = Vec::new();
    let n = lines.len();
    let mut k: usize = 1;
    while k < n
        invariant
            1 <= k <= n,
            n == ls.len(),
            views(lines@) == ls,
            vertices_of(ls, k as int) == Ok::<Seq<Point>, MeshError>(vertices@),
            forall|i: int| 0 <= i < vertices@.len() ==> (#[trigger] vertices@[i]).wf(),
            ls == split_spec(text@, 10),
            views(head@) == fields_spec(content_of(ls[0])),
            head@.len() == 1,
            count_of(views(head@)[0]) == Some(count),
        decreases n - k,
    {
        assert(lines@[k as int]@ == ls[k as int]);
        let fields = line_fields(lines[k].as_slice());
        let ghost prev = vertices@;
        let ghost vk = vertex_of(fields_spec(content_of(ls[k as int])));
        let res = parse_vertex(&fields);
        assert(res == vk);
        assert(vertices_of(ls, k + 1) == match vk {
            Err(e) => Err(e),
            Ok(None) => Ok(prev),
            Ok(Some(p)) => Ok::<Seq<Point>, MeshError>(prev.push(p)),
        });
        match res {
            Err(e) => {
                proof {
                    lemma_vertices_error_stays(ls, k + 1, n as int);
                }
                return Err(e);
            },
            Ok(None) => {},
            Ok(Some(p)) => {
                vertices.push(p);
                assert(vertices@ == prev.push(p));
            },
        }
        k += 1;
    }
    let r = group_triangles(count, &vertices);
    proof {
        if r is Ok {
            let t = r->Ok_0;
            assert forall|i: int| 0 <= i < t@.len() implies (#[trigger] t@[i]).wf() by {
                assert(vertices@[3 * i].wf() && vertices@[3 * i + 1].wf() && vertices@[3 * i + 2].wf());
            }
        }
    }
    r
}

/// Once a line fails, the vertices of every longer prefix fail the same way.
proof fn lemma_vertices_error_stays(lines: Seq<Seq<u8>>, k: int, n: int)
    requires
        k >= 1,
        k <= n,
        vertices_of(lines, k) is Err,
    ensures
        vertices_of(lines, n) == vertices_of(lines, k),
    decreases n - k,
{
    if n > k {
        lemma_vertices_error_stays(lines, k, n - 1);
    }
}

} // verus!
