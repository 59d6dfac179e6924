//! Floating-point literals: from decimal digits to the IEEE 754 binary64
//! encoding, rounded to nearest, ties to even.

use vstd::prelude::*;

use crate::ast::lexer::{digits_value, is_digit};

verus! {

/// 2 to the power `e`.
pub open spec fn p2(e: nat) -> nat
    decreases e,
{
    if e == 0 {
        1
    } else {
        2 * p2((e - 1) as nat)
    }
}

/// 10 to the power `k`.
pub open spec fn p10(k: nat) -> nat
    decreases k,
{
    if k == 0 {
        1
    } else {
        10 * p10((k - 1) as nat)
    }
}

/// 2 to the power 52: the weight of the hidden bit of a binary64 significand.
pub open spec fn hidden_bit() -> nat {
    0x10_0000_0000_0000
}

/// The positive normal binary64 number encoded by `bits` is `m * 2^e` with
/// `m` its significand (hidden bit included) and `e` its exponent; it lies
/// within half a unit in the last place of `n / d`, and where `n / d` is
/// exactly halfway between two neighbours, `m` is even.
pub open spec fn rounds_to(n: nat, d: nat, bits: u64) -> bool {
    let biased = (bits as nat) / hidden_bit();
    let m = (bits as nat) % hidden_bit() + hidden_bit();
    let e = biased - 1075;
    let a: nat = if e < 0 {
        (-e) as nat
    } else {
        0
    };
    let b: nat = if e > 0 {
        e as nat
    } else {
        0
    };
    let diff = n * p2(a) - m * d * p2(b);
    let twice = 2 * (if diff < 0 {
        -diff
    } else {
        diff
    });
    &&& 0 < biased < 2047
    &&& twice <= d * p2(b)
    &&& twice == d * p2(b) ==> m % 2 == 0
}

proof fn lemma_p2_adds(x: nat, y: nat)
    ensures
        p2(x + y) == p2(x) * p2(y),
    decreases x,
{
    if x > 0 {
        lemma_p2_adds((x - 1) as nat, y);
        assert((x - 1 + y) as nat == (x + y - 1) as nat);
        assert(p2(x + y) == 2 * p2((x + y - 1) as nat));
        assert(p2(x) == 2 * p2((x - 1) as nat));
        let a = p2((x - 1) as nat);
        let b = p2(y);
        assert(2 * (a * b) == (2 * a) * b) by (nonlinear_arith);
    } else {
        assert(p2(0) == 1);
        assert(x + y == y);
    }
}

proof fn lemma_p2_128()
    ensures
        p2(128) == 0x1_0000_0000_0000_0000_0000_0000_0000_0000,
{
    reveal_with_fuel(p2, 9);
    assert(p2(8) == 256);
    lemma_p2_adds(8, 8);
    assert(p2(16) == 0x1_0000);
    lemma_p2_adds(16, 16);
    assert(p2(32) == 0x1_0000_0000);
    lemma_p2_adds(32, 32);
    assert(p2(64) == 0x1_0000_0000_0000_0000);
    lemma_p2_adds(64, 64);
}

proof fn lemma_p2_12()
    ensures
        p2(12) == 4096,
{
    reveal_with_fuel(p2, 13);
}

proof fn lemma_p2_pos(x: nat)
    ensures
        p2(x) >= 1,
    decreases x,
{
    if x > 0 {
        lemma_p2_pos((x - 1) as nat);
    }
}

proof fn lemma_p2_mono(x: nat, y: nat)
    requires
        x <= y,
    ensures
        p2(x) <= p2(y),
    decreases y,
{
    if x < y {
        lemma_p2_mono(x, (y - 1) as nat);
        lemma_p2_pos((y - 1) as nat);
    }
}

/// The binary64 encoding of `n / d`, rounded to nearest, ties to even.
fn round_to_binary64(n: u64, d: u128) -> (bits: u64)
    requires
        n > 0,
        1 <= d < 0x400_0000_0000_0000_0000,
    ensures
        rounds_to(n as nat, d as nat, bits),
{
    let mut num: u128 = n as u128;
    let mut den: u128 = d;
    let mut ai: u32 = 0;
    let mut bi: u32 = 0;
    proof {
        assert(p2(0) == 1);
    }
    // scale down while the quotient has more than 54 bits
    while num / den >= 0x40_0000_0000_0000
        invariant
            num == n,
            den == d * p2(bi as nat),
            ai == 0,
            1 <= den,
            den <= 0x400_0000_0000_0000_0000,
            bi <= 11,
            bi > 0 ==> num >= 0x20_0000_0000_0000 * den,
            p2(bi as nat) <= 0x800,
        decreases num - den,
    {
        proof {
            assert(den * 0x40_0000_0000_0000 <= num) by (nonlinear_arith)
                requires
                    num / den >= 0x40_0000_0000_0000,
                    den >= 1,
            ;
            assert(den <= 0x400);
            assert(p2((bi + 1) as nat) == 2 * p2(bi as nat));
            assert(d * p2((bi + 1) as nat) == d * p2(bi as nat) * 2) by (nonlinear_arith)
                requires
                    p2((bi + 1) as nat) == 2 * p2(bi as nat),
            ;
            lemma_p2_pos(bi as nat);
            assert(d * p2(bi as nat) >= p2(bi as nat)) by (nonlinear_arith)
                requires
                    d >= 1,
            ;
            if bi + 1 > 11 {
                lemma_p2_12();
                lemma_p2_mono(12, (bi + 1) as nat);
                assert(false);
            }
        }
        den = den * 2;
        bi = bi + 1;
    }
    proof {
        assert(num < 0x40_0000_0000_0000 * den) by (nonlinear_arith)
            requires
                num / den < 0x40_0000_0000_0000,
                den >= 1,
        ;
    }
    // scale up while the quotient has fewer than 54 bits
    while num / den < 0x20_0000_0000_0000
        invariant
            num == n as nat * p2(ai as nat),
            den == d * p2(bi as nat),
            ai > 0 ==> bi == 0,
            1 <= den,
            den <= 0x400_0000_0000_0000_0000,
            bi <= 11,
            ai <= 128,
            bi > 0 ==> num >= 0x20_0000_0000_0000 * den,
            num < 0x40_0000_0000_0000 * den,
            1 <= num,
        decreases 0x40_0000_0000_0000 * den - num,
    {
        proof {
            assert(num < 0x20_0000_0000_0000 * den) by (nonlinear_arith)
                requires
                    num / den < 0x20_0000_0000_0000,
                    den >= 1,
            ;
            assert(bi == 0);
            assert(p2((ai + 1) as nat) == 2 * p2(ai as nat));
            assert(n as nat * p2((ai + 1) as nat) == n as nat * p2(ai as nat) * 2) by (nonlinear_arith)
                requires
                    p2((ai + 1) as nat) == 2 * p2(ai as nat),
            ;
            lemma_p2_pos(ai as nat);
            assert(num >= p2(ai as nat)) by (nonlinear_arith)
                requires
                    num == n as nat * p2(ai as nat),
                    n >= 1,
            ;
            if ai >= 128 {
                lemma_p2_mono(128, ai as nat);
                lemma_p2_128();
                assert(false);
            }
        }
        num = num * 2;
        ai = ai + 1;
    }
    let q = num / den;
    let r = num % den;
    proof {
        assert(num == q * den + r && 0 <= r < den) by (nonlinear_arith)
            requires
                q == num / den,
                r == num % den,
                den >= 1,
        ;
        assert(q < 0x40_0000_0000_0000) by (nonlinear_arith)
            requires
                num < 0x40_0000_0000_0000 * den,
                num == q * den + r,
                0 <= r,
                den >= 1,
        ;
        assert(q >= 0x20_0000_0000_0000) by (nonlinear_arith)
            requires
                num / den >= 0x20_0000_0000_0000,
                q == num / den,
        ;
    }
    let m0 = q / 2;
    let g = q % 2;
    let up = g == 1 && (r != 0 || m0 % 2 == 1);
    let mut m: u128 = if up {
        m0 + 1
    } else {
        m0
    };
    let extra: u32 = if m == 0x20_0000_0000_0000 {
        m = 0x10_0000_0000_0000;
        1
    } else {
        0
    };
    // |num - m * den * 2^(1 + extra)| <= den * 2^extra, ties to even
    let ghost t: nat = (1 + extra) as nat;
    let ghost diff: int = num - m * den * p2(t);
    proof {
        reveal_with_fuel(p2, 3);
        assert(p2(0) == 1);
        assert(p2(1) == 2);
        assert(p2(2) == 4);
        assert(q == 2 * m0 + g);
        if extra == 0 {
            if up {
                assert(g == 1);
                assert(diff == r - den) by (nonlinear_arith)
                    requires
                        diff == num - m * den * 2,
                        num == q * den + r,
                        q == 2 * m0 + 1,
                        m == m0 + 1,
                ;
                assert(r == 0 ==> m % 2 == 0);
            } else {
                assert(diff == g * den + r) by (nonlinear_arith)
                    requires
                        diff == num - m * den * 2,
                        num == q * den + r,
                        q == 2 * m0 + g,
                        m == m0,
                ;
                if g == 1 {
                    assert(r == 0 && m0 % 2 == 0);
                    assert(diff == den) by (nonlinear_arith)
                        requires
                            diff == g * den + r,
                            g == 1,
                            r == 0,
                    ;
                } else {
                    assert(diff == r) by (nonlinear_arith)
                        requires
                            diff == g * den + r,
                            g == 0,
                    ;
                }
            }
        } else {
            assert(up);
            assert(m0 == 0x1f_ffff_ffff_ffff);
            assert(g == 1);
            assert(diff == r - den) by (nonlinear_arith)
                requires
                    diff == num - m * den * 4,
                    num == q * den + r,
                    q == 2 * m0 + 1,
                    m == 0x10_0000_0000_0000,
                    m0 == 0x1f_ffff_ffff_ffff,
            ;
        }
        let absd0: int = if diff < 0 { -diff } else { diff };
        assert(absd0 <= den * p2(extra as nat));
        assert(absd0 == den * p2(extra as nat) ==> m % 2 == 0);
    }
    let biased: u64 = (1076 + extra + bi - ai) as u64;
    let bits: u64 = biased * 0x10_0000_0000_0000 + (m as u64 - 0x10_0000_0000_0000);
    proof {
        assert((bits as nat) / hidden_bit() == biased && (bits as nat) % hidden_bit() == (m - hidden_bit())) by (nonlinear_arith)
            requires
                bits == biased * 0x10_0000_0000_0000 + (m - 0x10_0000_0000_0000),
                0x10_0000_0000_0000 <= m < 0x20_0000_0000_0000,
                hidden_bit() == 0x10_0000_0000_0000,
        ;
        let e: int = biased - 1075;
        assert(e == t + bi - ai);
        let absd: int = if diff < 0 { -diff } else { diff };
        let pe: nat = p2(extra as nat);
        reveal_with_fuel(p2, 3);
        assert(p2(t) == 2 * pe);
        assert(absd <= den * pe);
        assert(absd == den * pe ==> m % 2 == 0);
        if ai >= 1 {
            assert(bi == 0);
            assert(den == d) by (nonlinear_arith)
                requires
                    den == d * p2(0),
                    p2(0) == 1,
            ;
            if ai >= t {
                // e <= 0: a = ai - t, b = 0
                let a: nat = (ai - t) as nat;
                lemma_p2_adds(a, t);
                assert(num == n * p2(a) * p2(t)) by (nonlinear_arith)
                    requires
                        num == n * p2(ai as nat),
                        p2(ai as nat) == p2(a) * p2(t),
                ;
                let x: int = n * p2(a) - m * d;
                assert(diff == x * (2 * pe)) by (nonlinear_arith)
                    requires
                        diff == num - m * den * p2(t),
                        num == n * p2(a) * p2(t),
                        den == d,
                        p2(t) == 2 * pe,
                        x == n * p2(a) - m * d,
                ;
                let absx: int = if x < 0 { -x } else { x };
                assert(absd == absx * (2 * pe)) by (nonlinear_arith)
                    requires
                        diff == x * (2 * pe),
                        pe >= 1,
                        absd == (if diff < 0 { -diff } else { diff }),
                        absx == (if x < 0 { -x } else { x }),
                ;
                lemma_p2_pos(extra as nat);
                assert(2 * absx <= d) by (nonlinear_arith)
                    requires
                        absd == absx * (2 * pe),
                        absd <= den * pe,
                        den == d,
                        pe >= 1,
                ;
                assert(2 * absx == d ==> absd == den * pe) by (nonlinear_arith)
                    requires
                        absd == absx * (2 * pe),
                        den == d,
                ;
                assert(p2(0) == 1);
                assert(d * p2(0) == d);
                assert(m * d * p2(0) == m * d);
            } else {
                // e == 1: a = 0, b = 1
                assert(ai == 1 && extra == 1);
                assert(p2(ai as nat) == 2);
                assert(num == 2 * n) by (nonlinear_arith)
                    requires
                        num == n * p2(ai as nat),
                        p2(ai as nat) == 2,
                ;
                assert(p2(0) == 1);
                let x: int = n - m * d * 2;
                assert(diff == 2 * x) by (nonlinear_arith)
                    requires
                        diff == num - m * den * 4,
                        num == 2 * n,
                        den == d,
                        x == n - m * d * 2,
                ;
                assert(n * p2(0) == n);
            }
        } else {
            // e = t + bi >= 1: a = 0, b = t + bi
            let b: nat = (t + bi) as nat;
            lemma_p2_adds(bi as nat, t);
            assert(bi + t == b);
            lemma_p2_pos(bi as nat);
            assert(num == n as int) by (nonlinear_arith)
                requires
                    num == n * p2(0),
                    p2(0) == 1,
                    ai == 0,
            ;
            assert(m * den * p2(t) == m * d * p2(b)) by (nonlinear_arith)
                requires
                    den == d * p2(bi as nat),
                    p2(b) == p2(bi as nat) * p2(t),
            ;
            assert(2 * absd <= d * p2(b)) by (nonlinear_arith)
                requires
                    absd <= den * pe,
                    den == d * p2(bi as nat),
                    p2(b) == p2(bi as nat) * p2(t),
                    p2(t) == 2 * pe,
            ;
            assert(2 * absd == d * p2(b) ==> absd == den * pe) by (nonlinear_arith)
                requires
                    den == d * p2(bi as nat),
                    p2(b) == p2(bi as nat) * p2(t),
                    p2(t) == 2 * pe,
            ;
            assert(p2(0) == 1);
            assert(n * p2(0) == n);
        }
    }
    bits
}

/// The binary64 encoding of the literal `cs[a..e]`, written `digits.digits`
/// with the dot at `dot`; `None` where it has more significant digits than
/// fit in 64 bits or more than 22 digits after the dot.
pub fn decimal_bits(cs: &Vec<char>, a: usize, dot: usize, e: usize) -> (r: Option<u64>)
    requires
        a < dot < e <= cs@.len(),
        forall|i: int| a <= i < dot ==> is_digit(#[trigger] cs@[i]),
        forall|i: int| dot < i < e ==> is_digit(#[trigger] cs@[i]),
    ensures
        ({
            let n = digits_value(cs@.subrange(a as int, dot as int) + cs@.subrange(dot + 1, e as int), 10);
            let k = (e - dot - 1) as nat;
            &&& r matches Some(bits) ==> (n == 0 ==> bits == 0) && (n > 0 ==> rounds_to(
                n as nat,
                p10(k),
                bits,
            ))
            &&& r is None ==> n >= 0x1_0000_0000_0000_0000 || k > 22
            &&& r is Some ==> n < 0x1_0000_0000_0000_0000 && k <= 22
        }),
{
    let ghost digits = cs@.subrange(a as int, dot as int) + cs@.subrange(dot + 1, e as int);
    if e - dot - 1 > 22 {
        return None;
    }
    // the value of all digits
    let mut n: u64 = 0;
    let mut i = a;
    let ghost mut seen: Seq<char> = Seq::empty();
    while i < e
        invariant
            a <= i <= e <= cs@.len(),
            a < dot < e,
            forall|j: int| a <= j < dot ==> is_digit(#[trigger] cs@[j]),
            forall|j: int| dot < j < e ==> is_digit(#[trigger] cs@[j]),
            digits == cs@.subrange(a as int, dot as int) + cs@.subrange(dot + 1, e as int),
            seen == (if i <= dot {
                cs@.subrange(a as int, i as int)
            } else {
                cs@.subrange(a as int, dot as int) + cs@.subrange(dot + 1, i as int)
            }),
            n == digits_value(seen, 10),
        decreases e - i,
    {
        if i == dot {
            proof {
                assert(cs@.subrange(a as int, dot as int) + cs@.subrange(dot + 1, dot + 1) =~= cs@.subrange(
                    a as int,
                    dot as int,
                ));
            }
            i += 1;
            continue;
        }
        let c = cs[i];
        let dv = (c as u32 - 48) as u64;
        let ghost next = seen.push(c);
        proof {
            if i < dot {
                assert(next =~= cs@.subrange(a as int, i + 1));
            } else {
                assert(next =~= cs@.subrange(a as int, dot as int) + cs@.subrange(dot + 1, i + 1));
            }
            assert(next.drop_last() =~= seen);
        }
        proof {
            assert(next == digits.take(next.len() as int)) by {
                if i < dot {
                    assert(next =~= digits.take(next.len() as int));
                } else {
                    assert(next =~= digits.take(next.len() as int));
                }
            }
            assert(digits_value(next, 10) == n * 10 + dv);
            lemma_digits_grow(digits, next);
        }
        let m = match n.checked_mul(10) {
            Some(m) => m,
            None => {
                return None;
            },
        };
        n = match m.checked_add(dv) {
            Some(v) => v,
            None => {
                return None;
            },
        };
        proof {
            seen = next;
        }
        i += 1;
    }
    proof {
        assert(seen =~= digits);
    }
    if n == 0 {
        return Some(0);
    }
    let k = (e - dot - 1) as u32;
    let mut d: u128 = 1;
    let mut j: u32 = 0;
    while j < k
        invariant
            j <= k <= 22,
            d == p10(j as nat),
            d <= 10_000_000_000_000_000_000_000,
        decreases k - j,
    {
        proof {
            lemma_p10_bound((j + 1) as nat);
            assert(p10((j + 1) as nat) == 10 * p10(j as nat));
        }
        d = d * 10;
        j += 1;
    }
    proof {
        lemma_p10_bound(k as nat);
        lemma_p10_pos(k as nat);
    }
    Some(round_to_binary64(n, d))
}

proof fn lemma_p10_pos(k: nat)
    ensures
        p10(k) >= 1,
    decreases k,
{
    if k > 0 {
        lemma_p10_pos((k - 1) as nat);
    }
}

proof fn lemma_p10_mono(x: nat, y: nat)
    requires
        x <= y,
    ensures
        p10(x) <= p10(y),
    decreases y,
{
    if x < y {
        lemma_p10_mono(x, (y - 1) as nat);
        lemma_p10_pos((y - 1) as nat);
    }
}

proof fn lemma_p10_bound(k: nat)
    requires
        k <= 22,
    ensures
        p10(k) <= 10_000_000_000_000_000_000_000,
{
    reveal_with_fuel(p10, 23);
    assert(p10(22) == 10_000_000_000_000_000_000_000);
    lemma_p10_mono(k, 22);
}

/// Lemma: the value of digits is at least the value of any of its prefixes.
proof fn lemma_digits_grow(all: Seq<char>, prefix: Seq<char>)
    requires
        prefix.len() <= all.len(),
        prefix == all.take(prefix.len() as int),
        forall|i: int| 0 <= i < all.len() ==> is_digit(#[trigger] all[i]),
    ensures
        digits_value(all, 10) >= digits_value(prefix, 10),
    decreases all.len(),
{
    if all.len() > prefix.len() {
        assert(prefix =~= all.drop_last().take(prefix.len() as int));
        lemma_digits_grow(all.drop_last(), prefix);
        lemma_digits_nonneg(all.drop_last());
        assert(is_digit(all[all.len() - 1]));
        let x = digits_value(all.drop_last(), 10);
        let dl = crate::ast::lexer::digit_value(all.last());
        assert(dl >= 0);
        assert(digits_value(all, 10) == x * 10 + dl);
        assert(x * 10 + dl >= x) by (nonlinear_arith)
            requires
                x >= 0,
                dl >= 0,
        ;
    } else {
        assert(prefix =~= all);
    }
}

/// Lemma: the value of digits is not negative.
proof fn lemma_digits_nonneg(s: Seq<char>)
    requires
        forall|i: int| 0 <= i < s.len() ==> is_digit(#[trigger] s[i]),
    ensures
        digits_value(s, 10) >= 0,
    decreases s.len(),
{
    if s.len() > 0 {
        lemma_digits_nonneg(s.drop_last());
    }
}

} // verus!
