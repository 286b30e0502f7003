//! Reading the text of a JSON number with a fraction or an exponent as a
//! decimal value: its whole part, and whether anything follows the point.
use vstd::prelude::*;

verus! {

pub open spec fn is_digit(c: char) -> bool {
    '0' <= c && c <= '9'
}

pub open spec fn digit_val(c: char) -> int {
    c as int - '0' as int
}

/// How many digits `s` starts with.
pub open spec fn lead_digits(s: Seq<char>) -> nat
    decreases s.len(),
{
    if s.len() > 0 && is_digit(s[0]) {
        1 + lead_digits(s.drop_first())
    } else {
        0
    }
}

/// The number that the first `n` digits of `d` spell.
pub open spec fn digits_val(d: Seq<char>, n: int) -> int
    decreases n,
{
    if n <= 0 {
        0
    } else {
        digits_val(d, n - 1) * 10 + digit_val(d[n - 1])
    }
}

pub open spec fn pow10(n: nat) -> int
    decreases n,
{
    if n == 0 {
        1
    } else {
        10 * pow10((n - 1) as nat)
    }
}

/// The whole part of the number whose digits are `d` with the decimal
/// point after the first `p` of them (zeros filling in past the end).
pub open spec fn int_part(d: Seq<char>, p: int) -> int {
    if p <= 0 {
        0
    } else if p <= d.len() {
        digits_val(d, p)
    } else {
        digits_val(d, d.len() as int) * pow10((p - d.len()) as nat)
    }
}

/// Whether a digit other than zero follows the decimal point.
pub open spec fn frac_nonzero(d: Seq<char>, p: int) -> bool {
    exists|i: int| 0 <= i < d.len() && i >= p && d[i] != '0'
}

/// The bound at which exponents are held: any larger exponent counts as it.
pub open spec fn exp_cap() -> int {
    1_000_000_000_000_000_000_000_000_000_000
}

/// What follows the digits of a number's whole part: a fraction `.D`, or
/// nothing; gives the fraction's digits and the text after them.
pub open spec fn frac_part(r1: Seq<char>) -> Option<(Seq<char>, Seq<char>)> {
    if r1.len() > 0 && r1[0] == '.' {
        let b = lead_digits(r1.skip(1));
        if b == 0 {
            None
        } else {
            Some((r1.skip(1).take(b as int), r1.skip(1 + b as int)))
        }
    } else {
        Some((Seq::empty(), r1))
    }
}

/// What ends a number's text: an exponent `[eE][+-]?D`, or nothing; gives
/// the exponent, held within `exp_cap`.
pub open spec fn exp_part(r2: Seq<char>) -> Option<int> {
    if r2.len() == 0 {
        Some(0)
    } else if r2[0] == 'e' || r2[0] == 'E' {
        let r3 = r2.skip(1);
        let eneg = r3.len() > 0 && r3[0] == '-';
        let r4 = if r3.len() > 0 && (r3[0] == '-' || r3[0] == '+') {
            r3.skip(1)
        } else {
            r3
        };
        let c = lead_digits(r4);
        let e_abs = held(digits_val(r4, c as int), exp_cap());
        if c == 0 || c != r4.len() {
            None
        } else if eneg {
            Some(-e_abs)
        } else {
            Some(e_abs)
        }
    } else {
        None
    }
}

/// The parts of a number's text `-?D(.D)?([eE][+-]?D)?`: whether it is
/// negative, its digits, and where its decimal point falls among them.
pub open spec fn decimal_parts(t: Seq<char>) -> Option<(bool, Seq<char>, int)> {
    let neg = t.len() > 0 && t[0] == '-';
    let rest = if neg {
        t.skip(1)
    } else {
        t
    };
    let a = lead_digits(rest);
    if a == 0 {
        None
    } else {
        match frac_part(rest.skip(a as int)) {
            None => None,
            Some(fr) => match exp_part(fr.1) {
                None => None,
                Some(e) => Some((neg, rest.take(a as int) + fr.0, a + e)),
            },
        }
    }
}

pub open spec fn i64_lo() -> int {
    -9223372036854775808
}

pub open spec fn i64_hi() -> int {
    9223372036854775807
}

/// A timestamp in milliseconds from the text of a number with a fraction
/// or an exponent: above 10^12 it is taken as milliseconds already, else as
/// seconds; the result is cut toward zero to a whole number and held within
/// the bounds of `i64`. A text that is not such a number counts as zero.
pub open spec fn float_millis(t: Seq<char>) -> int {
    match decimal_parts(t) {
        None => 0,
        Some(parts) => {
            let neg = parts.0;
            let d = parts.1;
            let p = parts.2;
            let ip = int_part(d, p);
            if !neg && (ip > 1000000000000 || (ip == 1000000000000 && frac_nonzero(d, p))) {
                if ip > i64_hi() {
                    i64_hi()
                } else {
                    ip
                }
            } else {
                let ms = int_part(d, p + 3);
                if neg {
                    if -ms < i64_lo() {
                        i64_lo()
                    } else {
                        -ms
                    }
                } else if ms > i64_hi() {
                    i64_hi()
                } else {
                    ms
                }
            }
        },
    }
}

/// The bound at which a whole part is held: one past `i64::MAX`.
pub open spec fn part_cap() -> int {
    9223372036854775808
}

pub open spec fn held(x: int, cap: int) -> int {
    if x > cap {
        cap
    } else {
        x
    }
}

proof fn lemma_pow10_pos(n: nat)
    ensures
        pow10(n) >= 1,
    decreases n,
{
    if n > 0 {
        lemma_pow10_pos((n - 1) as nat);
    }
}

proof fn lemma_digits_val_nonneg(d: Seq<char>, n: int)
    requires
        n <= d.len(),
        forall|i: int| 0 <= i < n ==> is_digit(#[trigger] d[i]),
    ensures
        digits_val(d, n) >= 0,
    decreases n,
{
    if n > 0 {
        lemma_digits_val_nonneg(d, n - 1);
    }
}

proof fn lemma_held_step(x: int, dv: int, cap: int)
    requires
        x >= 0,
        0 <= dv <= 9,
        cap >= 0,
    ensures
        held(held(x, cap) * 10 + dv, cap) == held(x * 10 + dv, cap),
{
    if x > cap {
        assert(x * 10 >= cap * 10) by (nonlinear_arith)
            requires
                x > cap,
                cap >= 0,
        ;
    }
}

proof fn lemma_held_scale(x: int, pw: int, cap: int)
    requires
        x >= 0,
        pw >= 1,
        cap >= 0,
    ensures
        held(held(x, cap) * pw, cap) == held(x * pw, cap),
{
    if x > cap {
        assert(x * pw >= x && cap * pw >= cap) by (nonlinear_arith)
            requires
                x >= 0,
                pw >= 1,
                cap >= 0,
        ;
    }
}

fn digit_of(c: char) -> (r: u128)
    requires
        is_digit(c),
    ensures
        r as int == digit_val(c),
        r <= 9,
{
    ((c as u32) - ('0' as u32)) as u128
}

/// How many digits follow position `from`.
fn digits_from(s: &Vec<char>, from: usize) -> (r: usize)
    requires
        from <= s.len(),
    ensures
        from + r <= s.len(),
        r == lead_digits(s@.skip(from as int)),
        forall|i: int| from <= i < from + r ==> is_digit(#[trigger] s@[i]),
{
    let mut i: usize = from;
    while i < s.len() && '0' <= s[i] && s[i] <= '9'
        invariant
            from <= i <= s.len(),
            lead_digits(s@.skip(from as int)) == (i - from) + lead_digits(s@.skip(i as int)),
            forall|j: int| from <= j < i ==> is_digit(#[trigger] s@[j]),
        decreases s.len() - i,
    {
        assert(s@.skip(i as int).drop_first() =~= s@.skip(i + 1));
        i += 1;
    }
    if i < s.len() {
        assert(s@.skip(i as int)[0] == s@[i as int]);
    }
    i - from
}

/// The number that the first `n` digits of `d` spell, held at `cap`.
fn held_digits(d: &Vec<char>, lo: usize, n: usize, cap: u128) -> (r: u128)
    requires
        lo + n <= d.len(),
        forall|i: int| lo <= i < lo + n ==> is_digit(#[trigger] d@[i]),
        cap <= 100_000_000_000_000_000_000_000_000_000_000,
    ensures
        r as int == held(digits_val(d@.subrange(lo as int, lo + n), n as int), cap as int),
        r <= cap,
{
    let ghost ds = d@.subrange(lo as int, lo + n);
    let mut acc: u128 = 0;
    let mut i: usize = 0;
    while i < n
        invariant
            i <= n,
            lo + n <= d.len(),
            ds == d@.subrange(lo as int, lo + n),
            forall|j: int| lo <= j < lo + n ==> is_digit(#[trigger] d@[j]),
            cap <= 100_000_000_000_000_000_000_000_000_000_000,
            acc <= cap,
            acc as int == held(digits_val(ds, i as int), cap as int),
        decreases n - i,
    {
        assert(ds[i as int] == d@[lo + i]);
        let dv = digit_of(d[lo + i]);
        proof {
            assert forall|j: int| 0 <= j < i implies is_digit(#[trigger] ds[j]) by {
                assert(ds[j] == d@[lo + j]);
            }
            lemma_digits_val_nonneg(ds, i as int);
            lemma_held_step(digits_val(ds, i as int), dv as int, cap as int);
        }
        let next = acc * 10 + dv;
        acc = if next > cap { cap } else { next };
        i += 1;
    }
    acc
}

/// `x` times ten to the `z`, held at the part cap.
fn held_shift(x: u128, z: i128) -> (r: u128)
    requires
        x as int <= part_cap(),
        z >= 0,
    ensures
        r as int == held(x * pow10(z as nat), part_cap()),
{
    let cap: u128 = 9223372036854775808;
    let mut acc: u128 = x;
    let mut k: i128 = z;
    while k > 0 && acc != 0 && acc < cap
        invariant
            acc <= cap,
            cap as int == part_cap(),
            0 <= k <= z,
            held(acc * pow10(k as nat), part_cap()) == held(x * pow10(z as nat), part_cap()),
        decreases k,
    {
        let ghost pk = pow10((k - 1) as nat);
        proof {
            lemma_pow10_pos((k - 1) as nat);
            assert(pow10(k as nat) == 10 * pk);
            assert(acc * pow10(k as nat) == (acc * 10) * pk) by (nonlinear_arith)
                requires
                    pow10(k as nat) == 10 * pk,
            ;
            lemma_held_scale(acc * 10, pk, part_cap());
        }
        acc = if acc * 10 > cap { cap } else { acc * 10 };
        k = k - 1;
    }
    proof {
        lemma_pow10_pos(k as nat);
        if k == 0 {
            assert(acc * pow10(0) == acc);
        } else if acc == 0 {
            assert(acc * pow10(k as nat) == 0);
        } else {
            assert(acc * pow10(k as nat) >= acc) by (nonlinear_arith)
                requires
                    acc >= 0,
                    pow10(k as nat) >= 1,
            ;
        }
    }
    acc
}

/// The whole part of the digits `d` with the point after `p` of them, held
/// at the part cap.
fn held_int_part(d: &Vec<char>, p: i128) -> (r: u128)
    requires
        forall|i: int| 0 <= i < d.len() ==> is_digit(#[trigger] d@[i]),
    ensures
        r as int == held(int_part(d@, p as int), part_cap()),
{
    let cap: u128 = 9223372036854775808;
    if p <= 0 {
        0
    } else if p <= d.len() as i128 {
        let r = held_digits(d, 0, p as usize, cap);
        assert(d@.subrange(0, p as int) =~= d@.take(p as int));
        proof {
            lemma_digits_prefix(d@, p as int);
        }
        r
    } else {
        let x = held_digits(d, 0, d.len(), cap);
        assert(d@.subrange(0, d.len() as int) =~= d@);
        let z: i128 = p - d.len() as i128;
        proof {
            lemma_digits_val_nonneg(d@, d.len() as int);
            lemma_pow10_pos(z as nat);
            lemma_held_scale(digits_val(d@, d.len() as int), pow10(z as nat), part_cap());
        }
        held_shift(x, z)
    }
}

proof fn lemma_digits_prefix(d: Seq<char>, n: int)
    requires
        0 <= n <= d.len(),
    ensures
        digits_val(d.subrange(0, n), n) == digits_val(d, n),
    decreases n,
{
    if n > 0 {
        lemma_digits_prefix(d, n - 1);
        lemma_digits_same(d.subrange(0, n), d.subrange(0, n - 1), n - 1);
        assert(d.subrange(0, n)[n - 1] == d[n - 1]);
    }
}

proof fn lemma_digits_same(a: Seq<char>, b: Seq<char>, n: int)
    requires
        0 <= n <= a.len(),
        n <= b.len(),
        forall|i: int| 0 <= i < n ==> a[i] == b[i],
    ensures
        digits_val(a, n) == digits_val(b, n),
    decreases n,
{
    if n > 0 {
        lemma_digits_same(a, b, n - 1);
    }
}

/// Whether a digit other than zero follows the point after `p` digits.
fn has_nonzero_fraction(d: &Vec<char>, p: i128) -> (r: bool)
    ensures
        r == frac_nonzero(d@, p as int),
{
    let mut i: usize = if p <= 0 {
        0
    } else if p >= d.len() as i128 {
        d.len()
    } else {
        p as usize
    };
    while i < d.len()
        invariant
            i <= d.len(),
            p <= 0 || i as int >= p || i == d.len(),
            forall|j: int| 0 <= j < i && j >= p ==> d@[j] == '0',
        decreases d.len() - i,
    {
        if d[i] != '0' {
            return true;
        }
        i += 1;
    }
    false
}

/// The exponent at the end of a number's text, from position `from`.
fn exp_at(t: &Vec<char>, from: usize) -> (r: Option<i128>)
    requires
        from <= t.len(),
    ensures
        match r {
            None => exp_part(t@.skip(from as int)) is None,
            Some(e) => exp_part(t@.skip(from as int)) == Some(e as int)
                && -exp_cap() <= e <= exp_cap(),
        },
{
    let ghost r2 = t@.skip(from as int);
    if from == t.len() {
        return Some(0);
    }
    assert(r2[0] == t@[from as int]);
    if t[from] != 'e' && t[from] != 'E' {
        return None;
    }
    let r3: usize = from + 1;
    assert(r2.skip(1) =~= t@.skip(r3 as int));
    if r3 < t.len() {
        assert(t@.skip(r3 as int)[0] == t@[r3 as int]);
    }
    let eneg = r3 < t.len() && t[r3] == '-';
    let signed = r3 < t.len() && (t[r3] == '-' || t[r3] == '+');
    let r4: usize = if signed { r3 + 1 } else { r3 };
    assert(signed ==> t@.skip(r3 as int).skip(1) =~= t@.skip(r4 as int));
    let c = digits_from(t, r4);
    if c == 0 || r4 + c != t.len() {
        return None;
    }
    let e_cap: u128 = 1_000_000_000_000_000_000_000_000_000_000;
    let e_held = held_digits(t, r4, c, e_cap);
    proof {
        lemma_digits_same(t@.subrange(r4 as int, r4 + c), t@.skip(r4 as int), c as int);
    }
    let e_abs: i128 = e_held as i128;
    if eneg {
        Some(-e_abs)
    } else {
        Some(e_abs)
    }
}

/// The fraction after the whole part of a number's text, from position
/// `from`: where its digits end (`from` itself when there is none).
fn frac_at(t: &Vec<char>, from: usize) -> (r: Option<usize>)
    requires
        from <= t.len(),
    ensures
        match r {
            None => frac_part(t@.skip(from as int)) is None,
            Some(end) => from <= end <= t.len() && frac_part(t@.skip(from as int)) == Some(
                (
                    if end == from {
                        Seq::<char>::empty()
                    } else {
                        t@.subrange(from + 1, end as int)
                    },
                    t@.skip(end as int),
                ),
            ) && (end == from || end > from + 1) && forall|i: int| from + 1 <= i < end ==> is_digit(
                #[trigger] t@[i],
            ),
        },
{
    let ghost r1 = t@.skip(from as int);
    if from < t.len() {
        assert(r1[0] == t@[from as int]);
    }
    if from < t.len() && t[from] == '.' {
        assert(r1.skip(1) =~= t@.skip(from + 1));
        let b = digits_from(t, from + 1);
        if b == 0 {
            return None;
        }
        let end = from + 1 + b;
        assert(r1.skip(1).take(b as int) =~= t@.subrange(from + 1, end as int));
        assert(r1.skip(1 + b as int) =~= t@.skip(end as int));
        Some(end)
    } else {
        Some(from)
    }
}

/// The parts of a number's text (see `decimal_parts`).
fn number_parts(t: &Vec<char>) -> (r: Option<(bool, Vec<char>, i128)>)
    ensures
        match r {
            None => decimal_parts(t@) is None,
            Some(x) => decimal_parts(t@) == Some((x.0, x.1@, x.2 as int))
                && -2_000_000_000_000_000_000_000_000_000_000 <= x.2 <= 2_000_000_000_000_000_000_000_000_000_000
                && forall|i: int| 0 <= i < x.1@.len() ==> is_digit(#[trigger] x.1@[i]),
        },
{
    let ghost ts = t@;
    let neg = t.len() > 0 && t[0] == '-';
    let start: usize = if neg { 1 } else { 0 };
    let ghost rest = if neg { ts.skip(1) } else { ts };
    assert(rest =~= ts.skip(start as int));
    let a = digits_from(t, start);
    if a == 0 {
        return None;
    }
    let pos = start + a;
    assert(rest.skip(a as int) =~= ts.skip(pos as int));
    let end = match frac_at(t, pos) {
        None => {
            return None;
        },
        Some(end) => end,
    };
    let e = match exp_at(t, end) {
        None => {
            return None;
        },
        Some(e) => e,
    };
    let mut d = slice_digits(t, start, pos);
    assert(d@ =~= rest.take(a as int));
    if end > pos {
        let mut f = slice_digits(t, pos + 1, end);
        d.append(&mut f);
    }
    assert forall|i: int| 0 <= i < d@.len() implies is_digit(#[trigger] d@[i]) by {
        if i < a {
            assert(d@[i] == ts[start + i]);
        } else {
            assert(d@[i] == ts[pos + 1 + (i - a)]);
        }
    }
    Some((neg, d, a as i128 + e))
}

/// A timestamp in milliseconds from the text of a number with a fraction
/// or an exponent (see `float_millis`).
pub fn float_millis_of(text: &str) -> (r: i64)
    ensures
        r as int == float_millis(text@),
{
    let t = crate::text::chars_of(text);
    let (neg, d, p) = match number_parts(&t) {
        None => {
            return 0;
        },
        Some(x) => x,
    };
    let ip = held_int_part(&d, p);
    let ten12: u128 = 1000000000000;
    if !neg && (ip > ten12 || (ip == ten12 && has_nonzero_fraction(&d, p))) {
        if ip > 9223372036854775807 {
            9223372036854775807
        } else {
            ip as i64
        }
    } else {
        let ms = held_int_part(&d, p + 3);
        if neg {
            if ms >= 9223372036854775808 {
                -9223372036854775807 - 1
            } else {
                -(ms as i64)
            }
        } else if ms > 9223372036854775807 {
            9223372036854775807
        } else {
            ms as i64
        }
    }
}

/// The characters of `t` from `lo` up to `hi`, all digits.
fn slice_digits(t: &Vec<char>, lo: usize, hi: usize) -> (r: Vec<char>)
    requires
        lo <= hi <= t.len(),
    ensures
        r@ == t@.subrange(lo as int, hi as int),
{
    let mut r: Vec<char> = Vec::new();
    let mut i: usize = lo;
    while i < hi
        invariant
            lo <= i <= hi,
            hi <= t.len(),
            r@ == t@.subrange(lo as int, i as int),
        decreases hi - i,
    {
        r.push(t[i]);
        assert(r@ =~= t@.subrange(lo as int, i + 1));
        i += 1;
    }
    r
}

} // verus!
