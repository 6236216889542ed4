//! Snapping a requested block or chunk size to an exact divisor of a dimension.

use vstd::prelude::*;

verus! {

/// `d` is a positive divisor of `n`.
pub open spec fn divides(d: int, n: int) -> bool {
    d > 0 && n % d == 0
}

/// The distance between two integers.
pub open spec fn gap(a: int, b: int) -> int {
    if a <= b {
        b - a
    } else {
        a - b
    }
}

/// `f` is the divisor of `number` nearest to `target`; of two divisors equally
/// near, it is the larger.
pub open spec fn is_closest_factor(target: int, number: int, f: int) -> bool {
    &&& divides(f, number)
    &&& forall|d: int| #[trigger]
        divides(d, number) ==> gap(target, f) < gap(target, d) || (gap(target, f) == gap(
            target,
            d,
        ) && d <= f)
}

/// The target that is searched for: a request of zero counts as one.
pub open spec fn effective_target(target: nat) -> int {
    if target == 0 {
        1
    } else {
        target as int
    }
}

/// The divisor of `number` nearest to `target` (the larger of two equally
/// near). A `number` of zero has no nearest divisor and gives zero.
pub open spec fn closest_factor(target: nat, number: nat) -> nat {
    if number == 0 {
        0
    } else {
        choose|f: nat| is_closest_factor(effective_target(target), number as int, f as int)
    }
}

/// At most one value is the closest factor.
pub proof fn lemma_closest_factor_unique(target: int, number: int, f: int, g: int)
    requires
        is_closest_factor(target, number, f),
        is_closest_factor(target, number, g),
    ensures
        f == g,
{
    assert(divides(f, number));
    assert(divides(g, number));
}

/// A positive divisor of a positive number is at most that number.
pub proof fn lemma_divisor_le(d: int, n: int)
    requires
        n > 0,
        divides(d, n),
    ensures
        d <= n,
{
    if d > n {
        vstd::arithmetic::div_mod::lemma_small_mod(n as nat, d as nat);
    }
}

/// Whatever satisfies the defining property is the value of `closest_factor`.
pub proof fn lemma_closest_factor_is(target: nat, number: nat, f: nat)
    requires
        number > 0,
        is_closest_factor(effective_target(target), number as int, f as int),
    ensures
        closest_factor(target, number) == f,
{
    let c = closest_factor(target, number);
    assert(is_closest_factor(effective_target(target), number as int, c as int));
    lemma_closest_factor_unique(effective_target(target), number as int, f as int, c as int);
}

/// A target at or beyond `number` snaps to `number` itself.
pub proof fn lemma_closest_factor_of_large_target(target: nat, number: nat)
    requires
        number > 0,
        effective_target(target) >= number,
    ensures
        closest_factor(target, number) == number,
{
    let t = effective_target(target);
    let n = number as int;
    vstd::arithmetic::div_mod::lemma_mod_self_0(n);
    assert(divides(n, n));
    assert forall|d: int| #[trigger] divides(d, n) implies gap(t, n) < gap(t, d) || (gap(t, n)
        == gap(t, d) && d <= n) by {
        lemma_divisor_le(d, n);
    }
    lemma_closest_factor_is(target, number, number);
}

/// The closest factor of a positive number divides it and lies between one
/// and the number.
pub proof fn lemma_closest_factor_divides(target: nat, number: nat)
    requires
        number > 0,
    ensures
        1 <= closest_factor(target, number) <= number,
        number % closest_factor(target, number) == 0,
        is_closest_factor(
            effective_target(target),
            number as int,
            closest_factor(target, number) as int,
        ),
{
    let t = effective_target(target);
    let n = number as int;
    // The number itself is a divisor, so among the divisors one is nearest.
    lemma_nearest_exists(t, n, n);
    let c = closest_factor(target, number);
    assert(is_closest_factor(t, n, c as int));
    lemma_divisor_le(c as int, n);
}

/// Among the divisors of `n` one is nearest to `target`: by induction on the
/// gap of a known divisor `w`.
proof fn lemma_nearest_exists(target: int, n: int, w: int)
    requires
        n > 0,
        target >= 1,
        divides(w, n),
    ensures
        exists|f: nat| is_closest_factor(target, n, f as int),
    decreases gap(target, w),
{
    let g = gap(target, w);
    if exists|d: int| #[trigger] divides(d, n) && gap(target, d) < g {
        let d = choose|d: int| #[trigger] divides(d, n) && gap(target, d) < g;
        lemma_nearest_exists(target, n, d);
    } else {
        // No divisor is nearer than g: the larger of target + g and target - g
        // that divides is the closest factor.
        let up = target + g;
        let down = target - g;
        if divides(up, n) {
            assert(is_closest_factor(target, n, up));
            assert(is_closest_factor(target, n, (up as nat) as int));
        } else {
            assert(w == down);
            assert(is_closest_factor(target, n, down));
            assert(is_closest_factor(target, n, (down as nat) as int));
        }
    }
}

/// Snaps `target` to the divisor of `number` nearest to it, the larger of two
/// equally near. A `target` of zero is read as one; for a `number` of zero the
/// result is zero.
pub fn get_closest_factor(target: u32, number: u32) -> (f: u32)
    ensures
        f == closest_factor(target as nat, number as nat),
        number > 0 ==> 1 <= f <= number && number % f == 0,
{
    if number == 0 {
        return 0;
    }
    let t: u32 = if target == 0 {
        1
    } else {
        target
    };
    if t >= number {
        proof {
            lemma_closest_factor_of_large_target(target as nat, number as nat);
            lemma_closest_factor_divides(target as nat, number as nat);
        }
        return number;
    }
    let mut i: u32 = 0;
    loop
        invariant
            1 <= t < number,
            t == effective_target(target as nat),
            i <= number - t,
            forall|d: int| #[trigger] divides(d, number as int) ==> gap(t as int, d) >= i,
        decreases number - t - i,
    {
        let up: u32 = t + i;
        if number % up == 0 {
            proof {
                assert(divides(up as int, number as int));
                assert(is_closest_factor(t as int, number as int, up as int));
                lemma_closest_factor_is(target as nat, number as nat, up as nat);
                lemma_closest_factor_divides(target as nat, number as nat);
            }
            return up;
        }
        if i < t {
            let down: u32 = t - i;
            if number % down == 0 {
                proof {
                    assert(divides(down as int, number as int));
                    assert(is_closest_factor(t as int, number as int, down as int));
                    lemma_closest_factor_is(target as nat, number as nat, down as nat);
                    lemma_closest_factor_divides(target as nat, number as nat);
                }
                return down;
            }
        }
        proof {
            if i == number - t {
                vstd::arithmetic::div_mod::lemma_mod_self_0(number as int);
                assert(false);
            }
            assert forall|d: int| #[trigger] divides(d, number as int) implies gap(t as int, d) >= i
                + 1 by {
                if gap(t as int, d) == i {
                    assert(d == up || d == t - i);
                }
            }
        }
        i = i + 1;
    }
}

} // verus!
