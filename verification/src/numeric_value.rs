//! What the decoded text of a `numeric` means: for well-formed digit groups
//! (each below 10000) the integer part and the fraction digits denote
//! `sum digits[i] * 10000^(weight - i)`, cut (not rounded) to `dscale`
//! places after the point.
use vstd::prelude::*;
use crate::numeric::{
    frac_part, int_part, leading_groups, max, min, numeric_text, padded_groups, raw_frac_part,
    raw_int_part, spec_digits, spec_dscale, spec_ndigits, spec_sign, spec_weight, strip_zeros,
    unsigned_text, NumericError,
};
use crate::text::{all_digits, decimal, digit_char, digits_value, pad4, zeros};

verus! {

/// `10^n`.
pub open spec fn pow10(n: nat) -> nat
    decreases n,
{
    if n == 0 {
        1
    } else {
        10 * pow10((n - 1) as nat)
    }
}

/// The groups `from .. to` read as one base-10000 integer.
pub open spec fn groups_value(ds: Seq<u16>, from: int, to: int) -> nat
    decreases to - from,
{
    if to <= from {
        0
    } else {
        groups_value(ds, from, to - 1) * 10000 + ds[to - 1] as nat
    }
}

/// Every digit group is a base-10000 digit.
pub open spec fn groups_ok(ds: Seq<u16>) -> bool {
    forall|i: int| 0 <= i < ds.len() ==> #[trigger] ds[i] < 10000
}

/// `t` is the number `n / 10^e` (`e` may be negative) with `d` decimal
/// places kept and the rest cut off: `t = floor(n * 10^d / 10^e)`.
pub open spec fn truncated_to(t: nat, n: nat, e: int, d: nat) -> bool {
    if e >= 0 {
        t * pow10(e as nat) <= n * pow10(d) < (t + 1) * pow10(e as nat)
    } else {
        t == n * pow10((-e) as nat) * pow10(d)
    }
}

proof fn lemma_pow10_pos(n: nat)
    ensures
        pow10(n) >= 1,
    decreases n,
{
    if n > 0 {
        lemma_pow10_pos((n - 1) as nat);
    }
}

proof fn lemma_pow10_add(a: nat, b: nat)
    ensures
        pow10(a + b) == pow10(a) * pow10(b),
    decreases a,
{
    if a > 0 {
        lemma_pow10_add((a - 1) as nat, b);
        assert(pow10(a + b) == 10 * pow10((a - 1 + b) as nat));
        let x = pow10((a - 1) as nat);
        let y = pow10(b);
        assert(pow10(a) == 10 * x);
        assert(pow10((a - 1 + b) as nat) == x * y);
        assert(10 * (x * y) == (10 * x) * y) by (nonlinear_arith);
        assert(pow10(a + b) == 10 * (x * y));
        assert(pow10(a + b) == pow10(a) * y);
    } else {
        assert(pow10(0) == 1);
        assert(a + b == b);
        assert(1 * pow10(b) == pow10(b));
    }
}

proof fn lemma_pow10_4()
    ensures
        pow10(4) == 10000,
{
    reveal_with_fuel(pow10, 5);
}

proof fn lemma_dv_append(a: Seq<char>, b: Seq<char>)
    ensures
        digits_value(a + b) == digits_value(a) * pow10(b.len()) + digits_value(b),
    decreases b.len(),
{
    if b.len() == 0 {
        assert(a + b =~= a);
        assert(pow10(0) == 1);
        assert(digits_value(b) == 0);
        assert(digits_value(a) * 1 == digits_value(a));
    } else {
        let b0 = b.drop_last();
        lemma_dv_append(a, b0);
        assert((a + b).drop_last() =~= a + b0);
        assert((a + b).last() == b.last());
        let x = digits_value(a);
        let p = pow10(b0.len());
        let y = digits_value(b0);
        let c = ((b.last() as int) - 48) as nat;
        assert(digits_value(a + b) == digits_value(a + b0) * 10 + c);
        assert(digits_value(b) == y * 10 + c);
        assert(pow10(b.len()) == 10 * p);
        assert((x * p + y) * 10 + c == x * (10 * p) + (y * 10 + c)) by (nonlinear_arith);
        assert(digits_value(a + b0) == x * p + y);
        assert(digits_value(a + b) == (x * p + y) * 10 + c);
        assert(digits_value(a + b) == x * pow10(b.len()) + digits_value(b));
    }
}

proof fn lemma_dv_bound(s: Seq<char>)
    requires
        all_digits(s),
    ensures
        digits_value(s) < pow10(s.len()),
    decreases s.len(),
{
    if s.len() > 0 {
        let s0 = s.drop_last();
        assert(all_digits(s0)) by {
            assert forall|i: int| 0 <= i < s0.len() implies '0' <= #[trigger] s0[i] <= '9' by {
                assert(s0[i] == s[i]);
            }
        }
        lemma_dv_bound(s0);
        assert('0' <= s[s.len() - 1] <= '9');
        let x = digits_value(s0);
        let p = pow10(s0.len());
        let c = ((s.last() as int) - 48) as nat;
        assert(x < p && c < 10 ==> x * 10 + c < 10 * p) by (nonlinear_arith);
    }
}

proof fn lemma_all_digits_append(a: Seq<char>, b: Seq<char>)
    requires
        all_digits(a),
        all_digits(b),
    ensures
        all_digits(a + b),
{
    assert forall|i: int| 0 <= i < (a + b).len() implies '0' <= #[trigger] (a + b)[i] <= '9' by {
        if i < a.len() {
            assert((a + b)[i] == a[i]);
        } else {
            assert((a + b)[i] == b[i - a.len()]);
        }
    }
}

proof fn lemma_zeros(k: nat)
    ensures
        digits_value(zeros(k)) == 0,
        all_digits(zeros(k)),
        zeros(k).len() == k,
    decreases k,
{
    if k > 0 {
        lemma_zeros((k - 1) as nat);
        assert(zeros(k).drop_last() =~= zeros((k - 1) as nat));
    }
}

/// The decimal representation of `n` is digits denoting `n`, without a
/// leading zero unless `n` is zero.
pub proof fn lemma_decimal(n: nat)
    ensures
        digits_value(decimal(n)) == n,
        all_digits(decimal(n)),
        decimal(n).len() >= 1,
        n > 0 ==> decimal(n)[0] != '0',
    decreases n,
{
    if n < 10 {
        let s = decimal(n);
        assert(s == seq![digit_char(n)]);
        assert(s.drop_last() =~= Seq::<char>::empty());
        assert(s.last() == digit_char(n));
        assert(digits_value(Seq::<char>::empty()) == 0);
        assert(digits_value(s) == digits_value(s.drop_last()) * 10 + ((s.last() as int) - 48) as nat);
    } else {
        lemma_decimal(n / 10);
        let s = decimal(n);
        assert(s.drop_last() =~= decimal(n / 10));
        assert(s.last() == digit_char(n % 10));
        assert(digits_value(s) == digits_value(s.drop_last()) * 10 + ((s.last() as int) - 48) as nat);
        assert(s[0] == decimal(n / 10)[0]);
        assert(all_digits(s)) by {
            assert forall|i: int| 0 <= i < s.len() implies '0' <= #[trigger] s[i] <= '9' by {
                if i < s.len() - 1 {
                    assert(s[i] == decimal(n / 10)[i]);
                }
            }
        }
    }
}

proof fn lemma_decimal_len(n: nat)
    ensures
        n < 10 ==> decimal(n).len() == 1,
        10 <= n < 100 ==> decimal(n).len() == 2,
        100 <= n < 1000 ==> decimal(n).len() == 3,
        1000 <= n < 10000 ==> decimal(n).len() == 4,
    decreases n,
{
    if n >= 10 {
        lemma_decimal_len(n / 10);
        assert(decimal(n).len() == decimal(n / 10).len() + 1);
    }
}

proof fn lemma_pad4(n: nat)
    requires
        n < 10000,
    ensures
        pad4(n).len() == 4,
        digits_value(pad4(n)) == n,
        all_digits(pad4(n)),
{
    lemma_decimal(n);
    lemma_decimal_len(n);
    let k: nat = if n < 10 {
        3
    } else if n < 100 {
        2
    } else if n < 1000 {
        1
    } else {
        0
    };
    lemma_zeros(k);
    lemma_dv_append(zeros(k), decimal(n));
    lemma_all_digits_append(zeros(k), decimal(n));
    if k == 0 {
        assert(zeros(0) + decimal(n) =~= decimal(n));
    }
}

proof fn lemma_leading_groups(ds: Seq<u16>, c: nat)
    requires
        groups_ok(ds),
        c <= ds.len(),
    ensures
        digits_value(leading_groups(ds, c)) == groups_value(ds, 0, c as int),
        all_digits(leading_groups(ds, c)),
    decreases c,
{
    if c == 1 {
        lemma_decimal(ds[0] as nat);
        assert(groups_value(ds, 0, 0) == 0);
    } else if c > 1 {
        lemma_leading_groups(ds, (c - 1) as nat);
        lemma_pad4(ds[c - 1] as nat);
        lemma_pow10_4();
        lemma_dv_append(leading_groups(ds, (c - 1) as nat), pad4(ds[c - 1] as nat));
        lemma_all_digits_append(leading_groups(ds, (c - 1) as nat), pad4(ds[c - 1] as nat));
    }
}

proof fn lemma_padded_groups(ds: Seq<u16>, from: int, to: int)
    requires
        groups_ok(ds),
        0 <= from <= to <= ds.len(),
    ensures
        digits_value(padded_groups(ds, from, to)) == groups_value(ds, from, to),
        all_digits(padded_groups(ds, from, to)),
        padded_groups(ds, from, to).len() == 4 * (to - from),
    decreases to - from,
{
    if to > from {
        lemma_padded_groups(ds, from, to - 1);
        lemma_pad4(ds[to - 1] as nat);
        lemma_pow10_4();
        lemma_dv_append(padded_groups(ds, from, to - 1), pad4(ds[to - 1] as nat));
        lemma_all_digits_append(padded_groups(ds, from, to - 1), pad4(ds[to - 1] as nat));
    }
}

proof fn lemma_groups_split(ds: Seq<u16>, a: int, b: int, c: int)
    requires
        a <= b <= c,
    ensures
        groups_value(ds, a, c) == groups_value(ds, a, b) * pow10((4 * (c - b)) as nat)
            + groups_value(ds, b, c),
    decreases c - b,
{
    if c == b {
        assert(groups_value(ds, b, c) == 0);
        assert(pow10(0) == 1);
        assert((4 * (c - b)) as nat == 0);
        assert(groups_value(ds, a, b) * 1 == groups_value(ds, a, b));
    } else {
        lemma_groups_split(ds, a, b, c - 1);
        lemma_pow10_add((4 * (c - 1 - b)) as nat, 4);
        lemma_pow10_4();
        assert((4 * (c - 1 - b)) as nat + 4 == (4 * (c - b)) as nat);
        let x = groups_value(ds, a, b);
        let p = pow10((4 * (c - 1 - b)) as nat);
        let y = groups_value(ds, b, c - 1);
        let z = ds[c - 1] as nat;
        assert(groups_value(ds, a, c) == groups_value(ds, a, c - 1) * 10000 + z);
        assert(groups_value(ds, b, c) == y * 10000 + z);
        assert(pow10((4 * (c - b)) as nat) == p * 10000);
        assert((x * p + y) * 10000 + z == x * (p * 10000) + (y * 10000 + z)) by (nonlinear_arith);
        assert(groups_value(ds, a, c - 1) == x * p + y);
        assert(groups_value(ds, a, c) == (x * p + y) * 10000 + z);
        assert(groups_value(ds, a, c) == x * pow10((4 * (c - b)) as nat) + groups_value(ds, b, c));
    }
}

proof fn lemma_strip_zeros_value(s: Seq<char>)
    requires
        all_digits(s),
    ensures
        digits_value(strip_zeros(s)) == digits_value(s),
        all_digits(strip_zeros(s)),
        strip_zeros(s).len() > 0 ==> strip_zeros(s)[0] != '0',
    decreases s.len(),
{
    if s.len() > 0 && s[0] == '0' {
        let t = s.drop_first();
        assert(all_digits(t)) by {
            assert forall|i: int| 0 <= i < t.len() implies '0' <= #[trigger] t[i] <= '9' by {
                assert(t[i] == s[i + 1]);
            }
        }
        lemma_strip_zeros_value(t);
        assert(s =~= seq!['0'] + t);
        lemma_dv_append(seq!['0'], t);
        assert(seq!['0'].drop_last() =~= Seq::<char>::empty());
        assert(digits_value(Seq::<char>::empty()) == 0);
        assert(digits_value(seq!['0']) == digits_value(seq!['0'].drop_last()) * 10 + (('0' as int) - 48) as nat);
        assert(digits_value(seq!['0']) == 0);
        assert(0 * pow10(t.len()) == 0);
        assert(digits_value(s) == digits_value(t));
        assert(strip_zeros(s) == strip_zeros(t));
    }
}

/// The integer part for well-formed groups and a non-negative weight.
proof fn lemma_int_part(ds: Seq<u16>, w: int)
    requires
        groups_ok(ds),
        w >= 0,
    ensures
        all_digits(int_part(ds, w)),
        int_part(ds, w) == seq!['0'] || int_part(ds, w)[0] != '0',
        digits_value(int_part(ds, w)) == groups_value(ds, 0, min(w + 1, ds.len() as int)) * pow10(
            (4 * max(w + 1 - ds.len(), 0)) as nat,
        ),
{
    let g = min(w + 1, ds.len() as int) as nat;
    let m = (4 * max(w + 1 - ds.len(), 0)) as nat;
    lemma_leading_groups(ds, g);
    lemma_zeros(m);
    lemma_dv_append(leading_groups(ds, g), zeros(m));
    lemma_all_digits_append(leading_groups(ds, g), zeros(m));
    let r = raw_int_part(ds, w);
    lemma_strip_zeros_value(r);
    let t = strip_zeros(r);
    if t.len() == 0 {
        assert(t =~= Seq::<char>::empty());
        assert(digits_value(t) == 0);
        let ip = int_part(ds, w);
        assert(ip =~= seq!['0']);
        assert(ip.drop_last() =~= Seq::<char>::empty());
        assert(digits_value(Seq::<char>::empty()) == 0);
        assert(digits_value(ip) == digits_value(ip.drop_last()) * 10 + ((ip.last() as int) - 48) as nat);
    }
}

/// The fraction digits for well-formed groups: as many digits as the
/// groups of negative weight cover, with the value of those groups.
proof fn lemma_raw_frac_part(ds: Seq<u16>, w: int)
    requires
        groups_ok(ds),
        max(w + 1, 0) < ds.len(),
    ensures
        all_digits(raw_frac_part(ds, w)),
        raw_frac_part(ds, w).len() == 4 * (ds.len() - 1 - w),
        digits_value(raw_frac_part(ds, w)) == groups_value(ds, max(w + 1, 0), ds.len() as int),
{
    let start = max(w + 1, 0);
    let n = ds.len() as int;
    lemma_padded_groups(ds, start, n);
    let lead: Seq<char> = if w < 0 {
        zeros((4 * (-w - 1)) as nat)
    } else {
        seq![]
    };
    if w < 0 {
        lemma_zeros((4 * (-w - 1)) as nat);
    } else {
        assert(all_digits(lead));
        assert(digits_value(lead) == 0);
    }
    lemma_dv_append(lead, padded_groups(ds, start, n));
    lemma_all_digits_append(lead, padded_groups(ds, start, n));
}

proof fn lemma_dv_take(r: Seq<char>, d: nat)
    requires
        all_digits(r),
        d <= r.len(),
    ensures
        all_digits(r.take(d as int)),
        digits_value(r) == digits_value(r.take(d as int)) * pow10((r.len() - d) as nat)
            + digits_value(r.skip(d as int)),
        digits_value(r.skip(d as int)) < pow10((r.len() - d) as nat),
{
    let a = r.take(d as int);
    let b = r.skip(d as int);
    assert(r =~= a + b);
    assert(all_digits(a)) by {
        assert forall|i: int| 0 <= i < a.len() implies '0' <= #[trigger] a[i] <= '9' by {
            assert(a[i] == r[i]);
        }
    }
    assert(all_digits(b)) by {
        assert forall|i: int| 0 <= i < b.len() implies '0' <= #[trigger] b[i] <= '9' by {
            assert(b[i] == r[i + d]);
        }
    }
    lemma_dv_append(a, b);
    lemma_dv_bound(b);
}

/// Cutting or padding the fraction digits to `d` places keeps the value
/// `i + r / 10^|r|` truncated to `d` places.
proof fn lemma_scale(i: nat, r: Seq<char>, d: nat, f: Seq<char>)
    requires
        all_digits(r),
        f == (if r.len() > d {
            r.take(d as int)
        } else {
            r + zeros((d - r.len()) as nat)
        }),
    ensures
        all_digits(f),
        f.len() == d,
        truncated_to(
            i * pow10(d) + digits_value(f),
            i * pow10(r.len()) + digits_value(r),
            r.len() as int,
            d,
        ),
{
    let e = r.len();
    let big_r = digits_value(r);
    let n = i * pow10(e) + big_r;
    let t = i * pow10(d) + digits_value(f);
    lemma_dv_bound(r);
    if e > d {
        lemma_dv_take(r, d);
        let fv = digits_value(f);
        let rest = digits_value(r.skip(d as int));
        let q = pow10((e - d) as nat);
        let pd = pow10(d);
        lemma_pow10_add((e - d) as nat, d);
        assert((e - d) as nat + d == e);
        let pe = pow10(e);
        assert(pe == q * pd);
        assert(big_r == fv * q + rest);
        assert(rest < q);
        assert(n * pd == t * pe + rest * pd) by (nonlinear_arith)
            requires
                n == i * pe + big_r,
                t == i * pd + fv,
                pe == q * pd,
                big_r == fv * q + rest,
        ;
        lemma_pow10_pos(d);
        assert(rest * pd < q * pd) by (nonlinear_arith)
            requires
                rest < q,
                pd >= 1,
        ;
        assert(t * pe <= n * pd < (t + 1) * pe) by (nonlinear_arith)
            requires
                n * pd == t * pe + rest * pd,
                rest * pd < q * pd,
                pe == q * pd,
        ;
    } else {
        let k = (d - e) as nat;
        lemma_zeros(k);
        lemma_dv_append(r, zeros(k));
        lemma_all_digits_append(r, zeros(k));
        let fv = digits_value(f);
        let pk = pow10(k);
        assert(fv == big_r * pk);
        lemma_pow10_add(e, k);
        assert(e + k == d);
        let pe = pow10(e);
        let pd = pow10(d);
        assert(pd == pe * pk);
        assert(t * pe == n * pd) by (nonlinear_arith)
            requires
                t == i * pd + fv,
                fv == big_r * pk,
                pd == pe * pk,
                n == i * pe + big_r,
        ;
        lemma_pow10_pos(e);
        assert(n * pd < (t + 1) * pe) by (nonlinear_arith)
            requires
                t * pe == n * pd,
                pe >= 1,
        ;
    }
}

proof fn lemma_zero_text()
    ensures
        all_digits(seq!['0']),
        digits_value(seq!['0']) == 0,
{
    let z = seq!['0'];
    assert(z.drop_last() =~= Seq::<char>::empty());
    assert(digits_value(Seq::<char>::empty()) == 0);
    assert(digits_value(z) == digits_value(z.drop_last()) * 10 + ((z.last() as int) - 48) as nat);
}

/// The integer part is canonical digits; it is zero for a negative weight.
proof fn lemma_int_digits(ds: Seq<u16>, weight: int)
    requires
        groups_ok(ds),
    ensures
        all_digits(int_part(ds, weight)),
        int_part(ds, weight) == seq!['0'] || int_part(ds, weight)[0] != '0',
        weight < 0 ==> digits_value(int_part(ds, weight)) == 0,
{
    lemma_zero_text();
    if weight >= 0 {
        lemma_int_part(ds, weight);
    }
}

/// When some groups have negative weight, all groups read as one integer
/// are the integer part followed by the fraction digits.
proof fn lemma_split_value(ds: Seq<u16>, weight: int)
    requires
        groups_ok(ds),
        max(weight + 1, 0) < ds.len(),
    ensures
        all_digits(raw_frac_part(ds, weight)),
        groups_value(ds, 0, ds.len() as int) == digits_value(int_part(ds, weight)) * pow10(
            raw_frac_part(ds, weight).len(),
        ) + digits_value(raw_frac_part(ds, weight)),
{
    let n = ds.len() as int;
    let start = max(weight + 1, 0);
    let r = raw_frac_part(ds, weight);
    lemma_raw_frac_part(ds, weight);
    lemma_groups_split(ds, 0, start, n);
    lemma_int_digits(ds, weight);
    let g = groups_value(ds, 0, start);
    let iv = digits_value(int_part(ds, weight));
    if weight >= 0 {
        lemma_int_part(ds, weight);
        assert(min(weight + 1, n) == start);
        assert(max(weight + 1 - n, 0) == 0);
        assert(pow10(0) == 1);
        assert(iv == g * 1);
        assert((4 * (n - start)) as nat == r.len());
    } else {
        assert(groups_value(ds, 0, 0) == 0);
        assert(0 * pow10((4 * n) as nat) == 0);
        assert(iv * pow10(r.len()) == 0);
    }
}

/// When no group has negative weight, the integer part is all groups read
/// as one integer, followed by `4 * (weight + 1 - n)` zeros.
proof fn lemma_int_only_value(ds: Seq<u16>, weight: int, d: nat)
    requires
        groups_ok(ds),
        max(weight + 1, 0) >= ds.len(),
    ensures
        truncated_to(
            digits_value(int_part(ds, weight)) * pow10(d),
            groups_value(ds, 0, ds.len() as int),
            4 * (ds.len() - 1 - weight),
            d,
        ),
{
    let n = ds.len() as int;
    let big_n = groups_value(ds, 0, n);
    let iv = digits_value(int_part(ds, weight));
    let e = 4 * (n - 1 - weight);
    lemma_int_digits(ds, weight);
    lemma_pow10_pos(d);
    if weight >= 0 {
        lemma_int_part(ds, weight);
        let m = (4 * (weight + 1 - n)) as nat;
        assert(min(weight + 1, n) == n);
        assert(iv == big_n * pow10(m));
        if e < 0 {
            assert((-e) as nat == m);
        } else {
            assert(m == 0);
            assert(pow10(0) == 1);
            assert(iv * pow10(d) * 1 <= big_n * pow10(d) < (iv * pow10(d) + 1) * 1)
                by (nonlinear_arith)
                requires
                    iv == big_n * 1,
            ;
        }
    } else {
        // No groups at all: the value is zero.
        assert(n == 0);
        assert(big_n == 0);
        lemma_pow10_pos(e as nat);
        assert(iv * pow10(d) == 0);
    }
}

/// The text of well-formed groups denotes their value: the integer part
/// (without leading zeros) and the `d = max(dscale, 0)` fraction digits
/// together give `sum ds[i] * 10000^(weight - i)` truncated to `d` places,
/// that is, with `N` all groups read as one integer and
/// `e = 4 * (ds.len() - 1 - weight)`, the number `floor(N * 10^d / 10^e)`.
pub proof fn lemma_text_value(ds: Seq<u16>, weight: int, dscale: int)
    requires
        groups_ok(ds),
    ensures
        ({
            let ip = int_part(ds, weight);
            let fp = frac_part(ds, weight, dscale);
            let d = max(dscale, 0) as nat;
            &&& all_digits(ip)
            &&& ip == seq!['0'] || ip[0] != '0'
            &&& all_digits(fp)
            &&& fp.len() == d
            &&& truncated_to(
                digits_value(ip) * pow10(d) + digits_value(fp),
                groups_value(ds, 0, ds.len() as int),
                4 * (ds.len() - 1 - weight),
                d,
            )
        }),
{
    let n = ds.len() as int;
    let ip = int_part(ds, weight);
    let fp = frac_part(ds, weight, dscale);
    let d = max(dscale, 0) as nat;
    let r = raw_frac_part(ds, weight);
    lemma_int_digits(ds, weight);
    let iv = digits_value(ip);
    if max(weight + 1, 0) < n {
        lemma_split_value(ds, weight);
        lemma_raw_frac_part(ds, weight);
        lemma_scale(iv, r, d, fp);
    } else {
        assert(r =~= Seq::<char>::empty());
        assert(digits_value(r) == 0);
        assert(all_digits(r));
        lemma_scale(iv, r, d, fp);
        lemma_zeros(d);
        assert(fp =~= zeros(d));
        assert(digits_value(fp) == 0);
        lemma_int_only_value(ds, weight, d);
    }
}

/// The fraction digits always number exactly `max(dscale, 0)`.
proof fn lemma_frac_len(ds: Seq<u16>, weight: int, dscale: int)
    ensures
        frac_part(ds, weight, dscale).len() == max(dscale, 0),
{
    let d = max(dscale, 0) as nat;
    let r = raw_frac_part(ds, weight);
    if r.len() <= d {
        lemma_zeros((d - r.len()) as nat);
    }
}

/// For any value that is not NaN and whose digit count fits the bytes, the
/// decoded text is the optional minus sign, the integer part, and, when
/// `dscale` is positive, a point and the fraction digits (what
/// `lemma_text_value` describes for well-formed groups); the minus sign is
/// left off a text that is exactly `0`.
pub proof fn lemma_numeric_text_shape(raw: Seq<u8>)
    requires
        raw.len() >= 8,
        spec_sign(raw) != 0xC000,
        spec_ndigits(raw) >= 0,
        raw.len() >= 8 + 2 * spec_ndigits(raw),
    ensures
        ({
            let ds = spec_digits(raw, spec_ndigits(raw) as nat);
            let ip = int_part(ds, spec_weight(raw));
            let fp = frac_part(ds, spec_weight(raw), spec_dscale(raw));
            let body = if spec_dscale(raw) > 0 {
                ip + seq!['.'] + fp
            } else {
                ip
            };
            numeric_text(raw) == Ok::<Seq<char>, crate::numeric::NumericError>(
                if spec_sign(raw) == 0x4000 && body != seq!['0'] {
                    seq!['-'] + body
                } else {
                    body
                },
            )
        }),
{
    let ds = spec_digits(raw, spec_ndigits(raw) as nat);
    lemma_frac_len(ds, spec_weight(raw), spec_dscale(raw));
    let ip = int_part(ds, spec_weight(raw));
    let fp = frac_part(ds, spec_weight(raw), spec_dscale(raw));
    assert(unsigned_text(ds, spec_weight(raw), spec_dscale(raw)) == if spec_dscale(raw) > 0 {
        ip + seq!['.'] + fp
    } else {
        ip
    });
}

/// When the value has no more than `dscale` places after the point (as a
/// value stored at that scale has), the text is the value exactly: nothing is
/// cut. With `N` all groups read as one integer, `e = 4 * (ds.len() - 1 -
/// weight)` and `d = max(dscale, 0)`: the integer part and the fraction
/// digits, read as one integer `t`, satisfy `t * 10^e == N * 10^d`.
pub proof fn lemma_text_exact(ds: Seq<u16>, weight: int, dscale: int)
    requires
        groups_ok(ds),
        4 * (ds.len() - 1 - weight) >= 0,
        (groups_value(ds, 0, ds.len() as int) * pow10(max(dscale, 0) as nat)) % pow10(
            (4 * (ds.len() - 1 - weight)) as nat,
        ) == 0,
    ensures
        ({
            let d = max(dscale, 0) as nat;
            let t = digits_value(int_part(ds, weight)) * pow10(d) + digits_value(
                frac_part(ds, weight, dscale),
            );
            t * pow10((4 * (ds.len() - 1 - weight)) as nat) == groups_value(
                ds,
                0,
                ds.len() as int,
            ) * pow10(d)
        }),
{
    lemma_text_value(ds, weight, dscale);
    let d = max(dscale, 0) as nat;
    let e = (4 * (ds.len() - 1 - weight)) as nat;
    let t = digits_value(int_part(ds, weight)) * pow10(d) + digits_value(
        frac_part(ds, weight, dscale),
    );
    let x = groups_value(ds, 0, ds.len() as int) * pow10(d);
    let p = pow10(e);
    lemma_pow10_pos(e);
    assert(t * p <= x < (t + 1) * p);
    let q = x / p;
    assert(x == q * p) by (nonlinear_arith)
        requires
            x % p == 0,
            p >= 1,
            q == x / p,
    ;
    assert(q == t) by (nonlinear_arith)
        requires
            t * p <= q * p,
            q * p < (t + 1) * p,
            p >= 1,
    ;
}

/// When a byte string is refused, read from its bytes: fewer than eight
/// bytes are too short; otherwise, unless the sign word is `0xC000` (NaN),
/// a negative digit count (first byte at least `0x80`) or fewer than
/// `8 + 2 * ndigits` bytes do not match. NaN is `NaN` whatever follows.
pub proof fn lemma_numeric_errors(raw: Seq<u8>)
    ensures
        (numeric_text(raw) == Err::<Seq<char>, NumericError>(NumericError::TooShort)) <==> raw.len()
            < 8,
        (numeric_text(raw) == Err::<Seq<char>, NumericError>(NumericError::LengthMismatch)) <==> (
        raw.len() >= 8 && !(raw[4] == 0xC0 && raw[5] == 0) && (raw[0] >= 0x80 || raw.len() < 8 + 2
            * (raw[0] * 256 + raw[1]))),
        raw.len() >= 8 && raw[4] == 0xC0 && raw[5] == 0 ==> numeric_text(raw) == Ok::<
            Seq<char>,
            NumericError,
        >(seq!['N', 'a', 'N']),
{
}

/// A negative value reads as the same value with the sign word cleared,
/// with a minus sign in front, unless that text is exactly `0`.
pub proof fn lemma_negative_is_minus_positive(raw: Seq<u8>)
    requires
        raw.len() >= 8,
        raw[4] == 0x40,
        raw[5] == 0,
    ensures
        match (numeric_text(raw), numeric_text(raw.update(4, 0))) {
            (Ok(neg), Ok(pos)) => neg == (if pos == seq!['0'] {
                pos
            } else {
                seq!['-'] + pos
            }),
            (Err(a), Err(b)) => a == b,
            _ => false,
        },
{
    let pos = raw.update(4, 0);
    assert(spec_sign(raw) == 0x4000);
    assert(spec_sign(pos) == 0);
    assert(spec_ndigits(pos) == spec_ndigits(raw));
    assert(spec_weight(pos) == spec_weight(raw));
    assert(spec_dscale(pos) == spec_dscale(raw));
    if spec_ndigits(raw) >= 0 && raw.len() >= 8 + 2 * spec_ndigits(raw) {
        let n = spec_ndigits(raw) as nat;
        assert(spec_digits(pos, n) =~= spec_digits(raw, n));
    }
}

} // verus!
