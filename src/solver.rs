//! The invariant D and the unknown-reserve solver, both by Newton's
//! iteration over normalized reserves, with every step checked.
use vstd::prelude::*;

use crate::types::Balance;
use crate::wide::{fit, mul_add_div, mul_div, mul_div_wide, quotient, wide_bound, Wide};

verus! {

/// `b` raised to the power `e`.
pub open spec fn power(b: nat, e: nat) -> nat
    decreases e,
{
    if e == 0 {
        1
    } else {
        b * power(b, (e - 1) as nat)
    }
}

pub(crate) proof fn lemma_power_monotone(b: nat, i: nat, j: nat)
    requires
        b >= 1,
        i <= j,
    ensures
        power(b, i) <= power(b, j),
    decreases j,
{
    if i < j {
        lemma_power_monotone(b, i, (j - 1) as nat);
        let p = power(b, (j - 1) as nat);
        assert(p <= b * p) by (nonlinear_arith)
            requires
                b >= 1,
        ;
    }
}

/// The amplification coefficient scaled by `n^n`, when it fits a `u128`.
pub open spec fn ann_of(n: nat, amp: nat) -> Option<u128> {
    if amp * power(n, n) <= u128::MAX {
        Some((amp * power(n, n)) as u128)
    } else {
        None
    }
}

/// With two assets the scaled amplification is four times the amplification.
pub proof fn lemma_ann_of_two_assets(amp: nat)
    ensures
        ann_of(2, amp) == fit(4 * amp as int),
{
    reveal_with_fuel(power, 3);
    assert(power(2, 2) == 4);
}

/// `amplification * len^len`, or `None` on overflow.
pub fn calculate_ann(len: usize, amplification: Balance) -> (r: Option<Balance>)
    ensures
        r == ann_of(len as nat, amplification as nat),
{
    let n = len as u128;
    let mut acc = amplification;
    let mut i: usize = 0;
    assert(power(len as nat, 0) == 1);
    while i < len
        invariant
            i <= len,
            n == len,
            acc == amplification * power(len as nat, i as nat),
        decreases len - i,
    {
        let ghost p = power(len as nat, i as nat);
        assert(power(len as nat, (i + 1) as nat) == len * p);
        assert(acc * n == amplification * power(len as nat, (i + 1) as nat)) by (nonlinear_arith)
            requires
                acc == amplification * p,
                n == len,
                power(len as nat, (i + 1) as nat) == len * p,
        ;
        match acc.checked_mul(n) {
            Some(v) => acc = v,
            None => {
                proof {
                    lemma_power_monotone(len as nat, (i + 1) as nat, len as nat);
                    let big = power(len as nat, len as nat);
                    let small = power(len as nat, (i + 1) as nat);
                    assert(amplification * small <= amplification * big) by (nonlinear_arith)
                        requires
                            small <= big,
                    ;
                }
                return None;
            },
        }
        i += 1;
    }
    Some(acc)
}

/// The sum of a sequence of balances.
pub open spec fn total(xs: Seq<u128>) -> nat
    decreases xs.len(),
{
    if xs.len() == 0 {
        0
    } else {
        (total(xs.drop_last()) + xs.last()) as nat
    }
}

pub open spec fn all_zero(xs: Seq<u128>) -> bool {
    forall|i: int| 0 <= i < xs.len() ==> xs[i] == 0
}

pub open spec fn some_zero(xs: Seq<u128>) -> bool {
    exists|i: int| 0 <= i < xs.len() && xs[i] == 0
}

/// `start`, multiplied by `d / (x * n)` for each `x` of `xs` in turn, each
/// step rounded down; `None` where a divisor or a step leaves `u128`.
pub open spec fn chained_ratio(xs: Seq<u128>, start: u128, d: u128, n: nat) -> Option<u128>
    decreases xs.len(),
{
    if xs.len() == 0 {
        Some(start)
    } else {
        match chained_ratio(xs.drop_last(), start, d, n) {
            None => None,
            Some(acc) => match fit(xs.last() * n) {
                None => None,
                Some(den) => quotient(acc * d, den as int),
            },
        }
    }
}

/// Two successive Newton estimates agree to within one unit.
pub open spec fn converged(prev: u128, next: u128) -> bool {
    prev <= next + 1 && next <= prev + 1
}

/// One Newton step of the invariant: from `d`, with reserve sum `s`,
/// `(Ann*S + n*D_P) * D / ((Ann - 1) * D + (n + 1) * D_P) + 2`, where
/// `D_P = D^(n+1) / (n^n * prod(x))` is taken one reserve at a time.
pub open spec fn d_step(xs: Seq<u128>, s: u128, ann: u128, d: u128) -> Option<u128> {
    let n = xs.len();
    if ann == 0 {
        None
    } else {
        match chained_ratio(xs, d, d, n) {
            None => None,
            Some(dp) => match fit(ann * s + dp * n) {
                None => None,
                Some(num) => match fit((ann - 1) * d + (n + 1) * dp) {
                    None => None,
                    Some(den) => match quotient(num * d, den as int) {
                        None => None,
                        Some(q) => fit(q + 2),
                    },
                },
            },
        }
    }
}

/// At most `fuel` Newton steps from `d`, stopping at the first that converges.
pub open spec fn d_iterate(xs: Seq<u128>, s: u128, ann: u128, d: u128, fuel: nat) -> Option<u128>
    decreases fuel,
{
    if fuel == 0 {
        None
    } else {
        match d_step(xs, s, ann, d) {
            None => None,
            Some(next) => if converged(d, next) {
                Some(next)
            } else {
                d_iterate(xs, s, ann, next, (fuel - 1) as nat)
            },
        }
    }
}

/// The invariant D of normalized reserves `xs`: zero when every reserve is
/// zero; none when only some are; else Newton's iteration from the sum.
pub open spec fn invariant_d(xs: Seq<u128>, amp: nat, iterations: nat) -> Option<u128> {
    if all_zero(xs) {
        Some(0)
    } else if some_zero(xs) {
        None
    } else {
        match fit(total(xs) as int) {
            None => None,
            Some(s) => match ann_of(xs.len(), amp) {
                None => None,
                Some(ann) => d_iterate(xs, s, ann, s, iterations),
            },
        }
    }
}

/// One Newton step for the unknown reserve: `(y^2 + c) / (2y + b - D) + 2`,
/// where `y^2 + c` may take 256 bits.
pub open spec fn y_step(c: nat, b: u128, d: u128, y: u128) -> Option<u128> {
    match fit(2 * y + b) {
        None => None,
        Some(t) => if t < d || y * y + c >= wide_bound() {
            None
        } else {
            match quotient(y * y + c, t - d) {
                None => None,
                Some(q) => fit(q + 2),
            }
        },
    }
}

/// At most `fuel` Newton steps from `y`, stopping at the first that converges.
pub open spec fn y_iterate(c: nat, b: u128, d: u128, y: u128, fuel: nat) -> Option<u128>
    decreases fuel,
{
    if fuel == 0 {
        None
    } else {
        match y_step(c, b, d, y) {
            None => None,
            Some(next) => if converged(y, next) {
                Some(next)
            } else {
                y_iterate(c, b, d, next, (fuel - 1) as nat)
            },
        }
    }
}

/// The reserve that, beside the fixed reserves `others`, gives invariant `d`
/// under the scaled amplification `ann`. With `n` the pool size (`others` and
/// the unknown one), `c = D^(n+1) / (n^n * prod(others) * Ann * n)`, which may
/// take 256 bits, and `b = sum(others) + D / Ann`; Newton's iteration starts
/// from `D`. Zero reserves among nonzero ones give none; if all of `others`
/// are zero they take no part.
pub open spec fn y_given_ann(others: Seq<u128>, d: u128, ann: u128, iterations: nat) -> Option<u128> {
    if some_zero(others) && !all_zero(others) {
        None
    } else {
        let ys = if all_zero(others) { Seq::<u128>::empty() } else { others };
        let n = ys.len() + 1;
        match fit(total(ys) as int) {
            None => None,
            Some(s) => match chained_ratio(ys, d, d, n) {
                None => None,
                Some(c0) => match fit(ann * n) {
                    None => None,
                    Some(an) => if an == 0 {
                        None
                    } else {
                        match fit(s + d / ann) {
                            None => None,
                            Some(b) => y_iterate((c0 * d / an as int) as nat, b, d, d, iterations),
                        }
                    },
                },
            },
        }
    }
}

/// As `y_given_ann`, with `Ann = amp * n^n` for the pool size `n` that takes
/// part; none when that overflows.
pub open spec fn solve_y(others: Seq<u128>, d: u128, amp: nat, iterations: nat) -> Option<u128> {
    if some_zero(others) && !all_zero(others) {
        None
    } else {
        let n = if all_zero(others) { 1nat } else { others.len() + 1 };
        match ann_of(n, amp) {
            None => None,
            Some(ann) => y_given_ann(others, d, ann, iterations),
        }
    }
}

pub(crate) proof fn lemma_total_prefix(xs: Seq<u128>, k: int)
    requires
        0 <= k <= xs.len(),
    ensures
        total(xs.subrange(0, k)) <= total(xs),
    decreases xs.len(),
{
    if k < xs.len() {
        lemma_total_prefix(xs.drop_last(), k);
        assert(xs.drop_last().subrange(0, k) =~= xs.subrange(0, k));
    } else {
        assert(xs.subrange(0, k) =~= xs);
    }
}

pub(crate) proof fn lemma_chain_none(xs: Seq<u128>, start: u128, d: u128, n: nat, k: int)
    requires
        0 <= k <= xs.len(),
        chained_ratio(xs.subrange(0, k), start, d, n) is None,
    ensures
        chained_ratio(xs, start, d, n) is None,
    decreases xs.len(),
{
    if k < xs.len() {
        assert(xs.drop_last().subrange(0, k) =~= xs.subrange(0, k));
        lemma_chain_none(xs.drop_last(), start, d, n, k);
    } else {
        assert(xs.subrange(0, k) =~= xs);
    }
}

/// Whether some entry is zero, and whether all are.
pub(crate) fn zero_scan(xs: &[u128]) -> (r: (bool, bool))
    ensures
        r.0 == some_zero(xs@),
        r.1 == all_zero(xs@),
{
    let mut some = false;
    let mut all = true;
    let mut i: usize = 0;
    while i < xs.len()
        invariant
            i <= xs.len(),
            some == (exists|j: int| 0 <= j < i && xs@[j] == 0),
            all == (forall|j: int| 0 <= j < i ==> xs@[j] == 0),
        decreases xs.len() - i,
    {
        if xs[i] == 0 {
            some = true;
        } else {
            all = false;
        }
        i += 1;
    }
    (some, all)
}

/// The sum of `xs`, or `None` if it leaves `u128`.
pub(crate) fn checked_total(xs: &[u128]) -> (r: Option<u128>)
    ensures
        r == fit(total(xs@) as int),
{
    let mut acc: u128 = 0;
    let mut i: usize = 0;
    while i < xs.len()
        invariant
            i <= xs.len(),
            acc == total(xs@.subrange(0, i as int)),
        decreases xs.len() - i,
    {
        assert(xs@.subrange(0, i + 1).drop_last() =~= xs@.subrange(0, i as int));
        if acc > u128::MAX - xs[i] {
            proof {
                lemma_total_prefix(xs@, i + 1);
            }
            return None;
        }
        acc = acc + xs[i];
        i += 1;
    }
    assert(xs@.subrange(0, i as int) =~= xs@);
    Some(acc)
}

/// The chained ratio of `chained_ratio`, computed.
pub(crate) fn chain_ratio(xs: &[u128], start: u128, d: u128, n: u128) -> (r: Option<u128>)
    ensures
        r == chained_ratio(xs@, start, d, n as nat),
{
    let mut acc = start;
    let mut i: usize = 0;
    assert(xs@.subrange(0, 0) =~= Seq::<u128>::empty());
    while i < xs.len()
        invariant
            i <= xs.len(),
            chained_ratio(xs@.subrange(0, i as int), start, d, n as nat) == Some(acc),
        decreases xs.len() - i,
    {
        assert(xs@.subrange(0, i + 1).drop_last() =~= xs@.subrange(0, i as int));
        let den = match xs[i].checked_mul(n) {
            Some(v) => v,
            None => {
                proof {
                    lemma_chain_none(xs@, start, d, n as nat, i + 1);
                }
                return None;
            },
        };
        match mul_div(acc, d, den) {
            Some(v) => acc = v,
            None => {
                proof {
                    lemma_chain_none(xs@, start, d, n as nat, i + 1);
                }
                return None;
            },
        }
        i += 1;
    }
    assert(xs@.subrange(0, i as int) =~= xs@);
    Some(acc)
}

/// The invariant D of normalized reserves, after at most `iterations` Newton steps.
pub(crate) fn calculate_d_internal(xp: &[u128], amplification: Balance, iterations: u8) -> (r: Option<u128>)
    ensures
        r == invariant_d(xp@, amplification as nat, iterations as nat),
{
    let (some, all) = zero_scan(xp);
    if all {
        return Some(0);
    }
    if some {
        return None;
    }
    let s = match checked_total(xp) {
        Some(v) => v,
        None => return None,
    };
    let ann = match calculate_ann(xp.len(), amplification) {
        Some(v) => v,
        None => return None,
    };
    if ann == 0 {
        return None;
    }
    let n = xp.len() as u128;
    let mut d = s;
    let mut k: u8 = 0;
    while k < iterations
        invariant
            k <= iterations,
            n == xp@.len(),
            n <= usize::MAX,
            ann > 0,
            invariant_d(xp@, amplification as nat, iterations as nat) == d_iterate(
                xp@,
                s,
                ann,
                s,
                iterations as nat,
            ),
            d_iterate(xp@, s, ann, s, iterations as nat) == d_iterate(
                xp@,
                s,
                ann,
                d,
                (iterations - k) as nat,
            ),
        decreases iterations - k,
    {
        let dp = match chain_ratio(xp, d, d, n) {
            Some(v) => v,
            None => return None,
        };
        proof {
            assert(dp * n >= 0) by (nonlinear_arith)
                requires
                    dp >= 0,
                    n >= 0,
            ;
            assert((n + 1) * dp >= 0) by (nonlinear_arith)
                requires
                    dp >= 0,
                    n >= 0,
            ;
            assert(ann * s >= 0) by (nonlinear_arith)
                requires
                    ann >= 0,
                    s >= 0,
            ;
            assert((ann - 1) * d >= 0) by (nonlinear_arith)
                requires
                    ann >= 1,
                    d >= 0,
            ;
        }
        let num = match ann.checked_mul(s) {
            Some(a) => match dp.checked_mul(n) {
                Some(b) => a.checked_add(b),
                None => None,
            },
            None => None,
        };
        let num = match num {
            Some(v) => v,
            None => return None,
        };
        let den = match (ann - 1).checked_mul(d) {
            Some(a) => match (n + 1).checked_mul(dp) {
                Some(b) => a.checked_add(b),
                None => None,
            },
            None => None,
        };
        let den = match den {
            Some(v) => v,
            None => return None,
        };
        let q = match mul_div(num, d, den) {
            Some(v) => v,
            None => return None,
        };
        if q > u128::MAX - 2 {
            return None;
        }
        let next = q + 2;
        if (d <= next && next - d <= 1) || (next < d && d - next <= 1) {
            return Some(next);
        }
        d = next;
        k += 1;
    }
    None
}

/// The unknown reserve beside `xs` that gives invariant `d`, after at most
/// `iterations` Newton steps.
pub(crate) fn calculate_y_internal(xs: &[u128], d: u128, amplification: Balance, iterations: u8) -> (r: Option<u128>)
    requires
        xs@.len() < usize::MAX,
    ensures
        r == solve_y(xs@, d, amplification as nat, iterations as nat),
{
    let (some, all) = zero_scan(xs);
    if some && !all {
        return None;
    }
    let n_len = if all { 1 } else { xs.len() + 1 };
    let ann = match calculate_ann(n_len, amplification) {
        Some(v) => v,
        None => return None,
    };
    solve_y_internal(xs, d, ann, iterations)
}

/// The unknown reserve beside `xs` that gives invariant `d` under the scaled
/// amplification `ann`, after at most `iterations` Newton steps.
pub(crate) fn solve_y_internal(xs: &[u128], d: u128, ann: u128, iterations: u8) -> (r: Option<u128>)
    requires
        xs@.len() < usize::MAX,
    ensures
        r == y_given_ann(xs@, d, ann, iterations as nat),
{
    let (some, all) = zero_scan(xs);
    if some && !all {
        return None;
    }
    let empty: Vec<u128> = Vec::new();
    let ys: &[u128] = if all { empty.as_slice() } else { xs };
    assert(ys@ == if all_zero(xs@) { Seq::<u128>::empty() } else { xs@ });
    let n_len = ys.len() + 1;
    let s = match checked_total(ys) {
        Some(v) => v,
        None => return None,
    };
    let n = n_len as u128;
    let c0 = match chain_ratio(ys, d, d, n) {
        Some(v) => v,
        None => return None,
    };
    let an = match ann.checked_mul(n) {
        Some(v) => v,
        None => return None,
    };
    let c: Wide = match mul_div_wide(c0, d, an) {
        Some(v) => v,
        None => return None,
    };
    if ann == 0 {
        return None;
    }
    let b = match s.checked_add(d / ann) {
        Some(v) => v,
        None => return None,
    };
    let mut y = d;
    let mut k: u8 = 0;
    while k < iterations
        invariant
            k <= iterations,
            y_given_ann(xs@, d, ann, iterations as nat) == y_iterate(
                c.value(),
                b,
                d,
                d,
                iterations as nat,
            ),
            y_iterate(c.value(), b, d, d, iterations as nat) == y_iterate(
                c.value(),
                b,
                d,
                y,
                (iterations - k) as nat,
            ),
        decreases iterations - k,
    {
        proof {
            assert(y * y >= 0) by (nonlinear_arith)
                requires
                    y >= 0,
            ;
        }
        let t = match y.checked_mul(2) {
            Some(v) => v.checked_add(b),
            None => None,
        };
        let t = match t {
            Some(v) => v,
            None => return None,
        };
        if t < d {
            return None;
        }
        let q = match mul_add_div(y, y, c, t - d) {
            Some(v) => v,
            None => return None,
        };
        if q > u128::MAX - 2 {
            return None;
        }
        let next = q + 2;
        if (y <= next && next - y <= 1) || (next < y && y - next <= 1) {
            return Some(next);
        }
        y = next;
        k += 1;
    }
    None
}

pub(crate) proof fn lemma_d_iterate_at_least_two(xs: Seq<u128>, s: u128, ann: u128, d: u128, fuel: nat)
    ensures
        d_iterate(xs, s, ann, d, fuel) matches Some(v) ==> v >= 2,
    decreases fuel,
{
    if fuel > 0 {
        if let Some(next) = d_step(xs, s, ann, d) {
            lemma_d_iterate_at_least_two(xs, s, ann, next, (fuel - 1) as nat);
        }
    }
}

/// `xs` with `value` at `at`, then without the entry at `skip`.
pub(crate) fn others_with(xs: &[u128], skip: usize, at: usize, value: u128) -> (r: Vec<u128>)
    requires
        skip < xs@.len(),
        at < xs@.len(),
    ensures
        r@ == xs@.update(at as int, value).remove(skip as int),
{
    let ghost u = xs@.update(at as int, value);
    let mut out: Vec<u128> = Vec::new();
    let mut i: usize = 0;
    while i < xs.len()
        invariant
            i <= xs@.len(),
            skip < xs@.len(),
            at < xs@.len(),
            u == xs@.update(at as int, value),
            out@ == if i <= skip {
                u.subrange(0, i as int)
            } else {
                u.subrange(0, skip as int) + u.subrange(skip + 1, i as int)
            },
        decreases xs.len() - i,
    {
        if i != skip {
            let v = if i == at { value } else { xs[i] };
            out.push(v);
        }
        proof {
            if i < skip {
                assert(u.subrange(0, i + 1) =~= u.subrange(0, i as int).push(u[i as int]));
            } else if i == skip {
                assert(u.subrange(skip + 1, i + 1) =~= Seq::<u128>::empty());
                assert(u.subrange(0, skip as int) + u.subrange(skip + 1, i + 1) =~= u.subrange(
                    0,
                    skip as int,
                ));
            } else {
                assert(u.subrange(skip + 1, i + 1) =~= u.subrange(skip + 1, i as int).push(
                    u[i as int],
                ));
                assert(u.subrange(0, skip as int) + u.subrange(skip + 1, i + 1) =~= (u.subrange(
                    0,
                    skip as int,
                ) + u.subrange(skip + 1, i as int)).push(u[i as int]));
            }
        }
        i += 1;
    }
    proof {
        assert(u.remove(skip as int) =~= u.subrange(0, skip as int) + u.subrange(
            skip + 1,
            u.len() as int,
        ));
    }
    out
}

/// The reserve at `idx` that, with the other normalized `reserves` held
/// fixed, gives invariant `d` under the scaled amplification `ann`, after at
/// most `Y` Newton steps. Fails on an index out of range, and wherever the
/// computation fails.
pub fn calculate_y<const Y: u8>(reserves: &[Balance], idx: usize, d: Balance, ann: Balance) -> (r: Option<Balance>)
    ensures
        r == if idx >= reserves@.len() {
            None
        } else {
            y_given_ann(reserves@.remove(idx as int), d, ann, Y as nat)
        },
{
    if idx >= reserves.len() {
        return None;
    }
    let others = others_with(reserves, idx, idx, reserves[idx]);
    assert(reserves@.update(idx as int, reserves@[idx as int]) =~= reserves@);
    solve_y_internal(others.as_slice(), d, ann, Y)
}

} // verus!
