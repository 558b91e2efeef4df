//! The GCD kernel: Euclid's algorithm on non-zero unsigned 64-bit integers,
//! proved to return the greatest common divisor.

use vstd::prelude::*;
use vstd::arithmetic::div_mod::lemma_fundamental_div_mod;

verus! {

/// `d` divides `x` evenly.
pub open spec fn divides(d: int, x: int) -> bool {
    exists|k: int| x == #[trigger] (d * k)
}

/// `d` is the greatest common divisor of `a` and `b`: it is positive, it
/// divides both, and every common divisor is at most `d`.
pub open spec fn is_gcd(d: int, a: int, b: int) -> bool {
    &&& d > 0
    &&& divides(d, a)
    &&& divides(d, b)
    &&& forall|e: int| e > 0 && divides(e, a) && divides(e, b) ==> e <= d
}

/// The greatest common divisor, by Euclid's recurrence.
pub open spec fn gcd_spec(a: nat, b: nat) -> nat
    decreases b,
{
    if b == 0 {
        a
    } else {
        gcd_spec(b, a % b)
    }
}

/// A positive divisor of a positive number is no larger than that number.
proof fn lemma_divides_le(e: int, x: int)
    requires
        e > 0,
        x > 0,
        divides(e, x),
    ensures
        e <= x,
{
    let k = choose|k: int| x == #[trigger] (e * k);
    assert(e <= x) by (nonlinear_arith)
        requires
            x == e * k,
            e > 0,
            x > 0,
    ;
}

/// Taking `y` modulo a positive `x` preserves the common divisors of the
/// pair: `e` divides both `x` and `y` exactly when it divides both `x` and
/// `y % x`.
proof fn lemma_mod_common_divisors(e: int, x: int, y: int)
    requires
        x > 0,
    ensures
        (divides(e, x) && divides(e, y)) <==> (divides(e, x) && divides(e, y % x)),
{
    lemma_fundamental_div_mod(y, x);
    let q = y / x;
    if divides(e, x) {
        let kx = choose|k: int| x == #[trigger] (e * k);
        if divides(e, y) {
            let ky = choose|k: int| y == #[trigger] (e * k);
            assert(y % x == e * (ky - kx * q)) by (nonlinear_arith)
                requires
                    y == x * q + y % x,
                    x == e * kx,
                    y == e * ky,
            ;
            assert(divides(e, y % x));
        }
        if divides(e, y % x) {
            let kr = choose|k: int| y % x == #[trigger] (e * k);
            assert(y == e * (kx * q + kr)) by (nonlinear_arith)
                requires
                    y == x * q + y % x,
                    x == e * kx,
                    y % x == e * kr,
            ;
            assert(divides(e, y));
        }
    }
}

/// Divisibility is transitive.
proof fn lemma_divides_transitive(x: int, y: int, z: int)
    requires
        divides(x, y),
        divides(y, z),
    ensures
        divides(x, z),
{
    let k1 = choose|k: int| y == #[trigger] (x * k);
    let k2 = choose|k: int| z == #[trigger] (y * k);
    assert(z == x * (k1 * k2)) by (nonlinear_arith)
        requires
            y == x * k1,
            z == y * k2,
    ;
}

/// Every number divides itself and zero.
proof fn lemma_divides_basics(a: int)
    ensures
        divides(a, a),
        divides(a, 0),
{
    assert(a == a * 1);
    assert(0 == a * 0);
}

/// `gcd_spec(a, b)` really is the greatest common divisor of `a` and `b`,
/// for positive `a` and any `b`.
pub proof fn lemma_gcd_spec_sound(a: nat, b: nat)
    requires
        a > 0,
    ensures
        is_gcd(gcd_spec(a, b) as int, a as int, b as int),
    decreases b,
{
    if b == 0 {
        lemma_divides_basics(a as int);
        assert forall|e: int| e > 0 && divides(e, a as int) && divides(e, 0) implies e <= a as int by {
            lemma_divides_le(e, a as int);
        }
    } else {
        lemma_gcd_spec_sound(b, a % b);
        let g = gcd_spec(b, a % b) as int;
        lemma_mod_common_divisors(g, b as int, a as int);
        assert forall|e: int| e > 0 && divides(e, a as int) && divides(e, b as int) implies e <= g by {
            lemma_mod_common_divisors(e, b as int, a as int);
        }
    }
}

/// Every common divisor of `a` and `b` divides their greatest common
/// divisor, not merely stays below it.
pub proof fn lemma_gcd_greatest_divides(a: nat, b: nat)
    requires
        a > 0,
    ensures
        forall|e: int|
            divides(e, a as int) && divides(e, b as int) ==> divides(
                e,
                gcd_spec(a, b) as int,
            ),
    decreases b,
{
    if b == 0 {
    } else {
        lemma_gcd_greatest_divides(b, a % b);
        assert forall|e: int| divides(e, a as int) && divides(e, b as int) implies divides(
            e,
            gcd_spec(a, b) as int,
        ) by {
            lemma_mod_common_divisors(e, b as int, a as int);
        }
    }
}

/// Two greatest common divisors of the same pair are equal.
pub proof fn lemma_gcd_unique(d: int, e: int, a: int, b: int)
    requires
        is_gcd(d, a, b),
        is_gcd(e, a, b),
    ensures
        d == e,
{
}

/// The greatest common divisor does not depend on the order of its
/// arguments.
pub proof fn lemma_gcd_commutes(a: nat, b: nat)
    requires
        a > 0,
        b > 0,
    ensures
        gcd_spec(a, b) == gcd_spec(b, a),
{
    lemma_gcd_spec_sound(a, b);
    lemma_gcd_spec_sound(b, a);
    lemma_gcd_unique(gcd_spec(a, b) as int, gcd_spec(b, a) as int, a as int, b as int);
}

/// The greatest common divisor associates across repeated application.
pub proof fn lemma_gcd_associates(a: nat, b: nat, c: nat)
    requires
        a > 0,
        b > 0,
        c > 0,
    ensures
        gcd_spec(gcd_spec(a, b), c) == gcd_spec(a, gcd_spec(b, c)),
{
    let gab = gcd_spec(a, b);
    let gbc = gcd_spec(b, c);
    lemma_gcd_spec_sound(a, b);
    lemma_gcd_spec_sound(b, c);
    lemma_gcd_spec_sound(gab, c);
    lemma_gcd_spec_sound(a, gbc);
    lemma_gcd_greatest_divides(a, b);
    lemma_gcd_greatest_divides(b, c);
    let l = gcd_spec(gab, c);
    let r = gcd_spec(a, gbc);
    // `l` divides `a`, `b` and `c`, hence also `gbc`.
    lemma_divides_transitive(l as int, gab as int, a as int);
    lemma_divides_transitive(l as int, gab as int, b as int);
    assert(divides(l as int, gbc as int));
    // Every common divisor of `a` and `gbc` divides `b` and `c`, hence
    // `gab`, and so stays below `l`.
    assert forall|e: int| e > 0 && divides(e, a as int) && divides(e, gbc as int) implies e
        <= l as int by {
        lemma_divides_transitive(e, gbc as int, b as int);
        lemma_divides_transitive(e, gbc as int, c as int);
        assert(divides(e, gab as int));
    }
    assert(is_gcd(l as int, a as int, gbc as int));
    lemma_gcd_unique(l as int, r as int, a as int, gbc as int);
}

/// The greatest common divisor of a positive number and itself is that
/// number.
pub proof fn lemma_gcd_self(a: nat)
    requires
        a > 0,
    ensures
        gcd_spec(a, a) == a,
{
    assert(a % a == 0) by {
        vstd::arithmetic::div_mod::lemma_mod_self_0(a as int);
    }
    assert(gcd_spec(a, 0) == a);
    assert(gcd_spec(a, a) == gcd_spec(a, a % a));
}

/// Euclid's algorithm by repeated remainder. Both inputs must be non-zero;
/// the result is the greatest common divisor.
pub fn gcd(n: u64, m: u64) -> (r: u64)
    requires
        n != 0,
        m != 0,
    ensures
        is_gcd(r as int, n as int, m as int),
        r as nat == gcd_spec(n as nat, m as nat),
{
    let mut x = n;
    let mut y = m;
    while y != 0
        invariant
            x > 0,
            forall|e: int|
                (divides(e, x as int) && divides(e, y as int)) <==> (divides(e, n as int)
                    && divides(e, m as int)),
        decreases y,
    {
        if y < x {
            let t = y;
            y = x;
            x = t;
        }
        let ghost y0 = y as int;
        y = y % x;
        proof {
            assert forall|e: int|
                (divides(e, x as int) && divides(e, y as int)) == (divides(e, x as int) && divides(
                    e,
                    y0,
                )) by {
                lemma_mod_common_divisors(e, x as int, y0);
            }
        }
    }
    proof {
        lemma_divides_basics(x as int);
        assert(divides(x as int, n as int) && divides(x as int, m as int));
        assert forall|e: int| e > 0 && divides(e, n as int) && divides(e, m as int) implies e
            <= x as int by {
            lemma_divides_le(e, x as int);
        }
        lemma_gcd_spec_sound(n as nat, m as nat);
        lemma_gcd_unique(x as int, gcd_spec(n as nat, m as nat) as int, n as int, m as int);
    }
    x
}

} // verus!
