//! Rotations in integer degrees and a fixed-point (thousandths) sine and
//! cosine for the motion systems.
//!
//! A body with speed `s` and rotation `r` (degrees, 0 pointing up, growing
//! clockwise) advances by `s * sin_milli(r) / 1000` along x and by
//! `-s * cos_milli(r) / 1000` along y each tick, truncating toward zero.

use vstd::prelude::*;

verus! {

use vstd::arithmetic::div_mod::{
    lemma_fundamental_div_mod, lemma_mod_multiples_vanish, lemma_small_mod, lemma_div_is_ordered,
};
use vstd::arithmetic::mul::lemma_mul_upper_bound;

/// Milli-sine over the first quadrant: `round(1000 * sin(d degrees))` for
/// `d` in `[0, 90]`, clamped to the nearer end outside that range.
pub open spec fn sin_q_milli(d: int) -> int {
    if d <= 0 {
        0
    } else if d == 1 {
        17
    } else if d == 2 {
        35
    } else if d == 3 {
        52
    } else if d == 4 {
        70
    } else if d == 5 {
        87
    } else if d == 6 {
        105
    } else if d == 7 {
        122
    } else if d == 8 {
        139
    } else if d == 9 {
        156
    } else if d == 10 {
        174
    } else if d == 11 {
        191
    } else if d == 12 {
        208
    } else if d == 13 {
        225
    } else if d == 14 {
        242
    } else if d == 15 {
        259
    } else if d == 16 {
        276
    } else if d == 17 {
        292
    } else if d == 18 {
        309
    } else if d == 19 {
        326
    } else if d == 20 {
        342
    } else if d == 21 {
        358
    } else if d == 22 {
        375
    } else if d == 23 {
        391
    } else if d == 24 {
        407
    } else if d == 25 {
        423
    } else if d == 26 {
        438
    } else if d == 27 {
        454
    } else if d == 28 {
        469
    } else if d == 29 {
        485
    } else if d == 30 {
        500
    } else if d == 31 {
        515
    } else if d == 32 {
        530
    } else if d == 33 {
        545
    } else if d == 34 {
        559
    } else if d == 35 {
        574
    } else if d == 36 {
        588
    } else if d == 37 {
        602
    } else if d == 38 {
        616
    } else if d == 39 {
        629
    } else if d == 40 {
        643
    } else if d == 41 {
        656
    } else if d == 42 {
        669
    } else if d == 43 {
        682
    } else if d == 44 {
        695
    } else if d == 45 {
        707
    } else if d == 46 {
        719
    } else if d == 47 {
        731
    } else if d == 48 {
        743
    } else if d == 49 {
        755
    } else if d == 50 {
        766
    } else if d == 51 {
        777
    } else if d == 52 {
        788
    } else if d == 53 {
        799
    } else if d == 54 {
        809
    } else if d == 55 {
        819
    } else if d == 56 {
        829
    } else if d == 57 {
        839
    } else if d == 58 {
        848
    } else if d == 59 {
        857
    } else if d == 60 {
        866
    } else if d == 61 {
        875
    } else if d == 62 {
        883
    } else if d == 63 {
        891
    } else if d == 64 {
        899
    } else if d == 65 {
        906
    } else if d == 66 {
        914
    } else if d == 67 {
        921
    } else if d == 68 {
        927
    } else if d == 69 {
        934
    } else if d == 70 {
        940
    } else if d == 71 {
        946
    } else if d == 72 {
        951
    } else if d == 73 {
        956
    } else if d == 74 {
        961
    } else if d == 75 {
        966
    } else if d == 76 {
        970
    } else if d == 77 {
        974
    } else if d == 78 {
        978
    } else if d == 79 {
        982
    } else if d == 80 {
        985
    } else if d == 81 {
        988
    } else if d == 82 {
        990
    } else if d == 83 {
        993
    } else if d == 84 {
        995
    } else if d == 85 {
        996
    } else if d == 86 {
        998
    } else if d == 87 {
        999
    } else if d == 88 {
        999
    } else if d == 89 {
        1000
    } else {
        1000
    }
}

/// Table lookup for `sin_q_milli`.
pub fn sin_q(d: i32) -> (r: i32)
    ensures
        r as int == sin_q_milli(d as int),
        0 <= r <= 1000,
{
    if d <= 0 {
        0
    } else if d == 1 {
        17
    } else if d == 2 {
        35
    } else if d == 3 {
        52
    } else if d == 4 {
        70
    } else if d == 5 {
        87
    } else if d == 6 {
        105
    } else if d == 7 {
        122
    } else if d == 8 {
        139
    } else if d == 9 {
        156
    } else if d == 10 {
        174
    } else if d == 11 {
        191
    } else if d == 12 {
        208
    } else if d == 13 {
        225
    } else if d == 14 {
        242
    } else if d == 15 {
        259
    } else if d == 16 {
        276
    } else if d == 17 {
        292
    } else if d == 18 {
        309
    } else if d == 19 {
        326
    } else if d == 20 {
        342
    } else if d == 21 {
        358
    } else if d == 22 {
        375
    } else if d == 23 {
        391
    } else if d == 24 {
        407
    } else if d == 25 {
        423
    } else if d == 26 {
        438
    } else if d == 27 {
        454
    } else if d == 28 {
        469
    } else if d == 29 {
        485
    } else if d == 30 {
        500
    } else if d == 31 {
        515
    } else if d == 32 {
        530
    } else if d == 33 {
        545
    } else if d == 34 {
        559
    } else if d == 35 {
        574
    } else if d == 36 {
        588
    } else if d == 37 {
        602
    } else if d == 38 {
        616
    } else if d == 39 {
        629
    } else if d == 40 {
        643
    } else if d == 41 {
        656
    } else if d == 42 {
        669
    } else if d == 43 {
        682
    } else if d == 44 {
        695
    } else if d == 45 {
        707
    } else if d == 46 {
        719
    } else if d == 47 {
        731
    } else if d == 48 {
        743
    } else if d == 49 {
        755
    } else if d == 50 {
        766
    } else if d == 51 {
        777
    } else if d == 52 {
        788
    } else if d == 53 {
        799
    } else if d == 54 {
        809
    } else if d == 55 {
        819
    } else if d == 56 {
        829
    } else if d == 57 {
        839
    } else if d == 58 {
        848
    } else if d == 59 {
        857
    } else if d == 60 {
        866
    } else if d == 61 {
        875
    } else if d == 62 {
        883
    } else if d == 63 {
        891
    } else if d == 64 {
        899
    } else if d == 65 {
        906
    } else if d == 66 {
        914
    } else if d == 67 {
        921
    } else if d == 68 {
        927
    } else if d == 69 {
        934
    } else if d == 70 {
        940
    } else if d == 71 {
        946
    } else if d == 72 {
        951
    } else if d == 73 {
        956
    } else if d == 74 {
        961
    } else if d == 75 {
        966
    } else if d == 76 {
        970
    } else if d == 77 {
        974
    } else if d == 78 {
        978
    } else if d == 79 {
        982
    } else if d == 80 {
        985
    } else if d == 81 {
        988
    } else if d == 82 {
        990
    } else if d == 83 {
        993
    } else if d == 84 {
        995
    } else if d == 85 {
        996
    } else if d == 86 {
        998
    } else if d == 87 {
        999
    } else if d == 88 {
        999
    } else if d == 89 {
        1000
    } else {
        1000
    }
}

/// A rotation reduced to `[0, 360)` degrees (mathematical modulus).
pub open spec fn norm360(d: int) -> int {
    d % 360
}

/// Milli-sine of `d` degrees, any integer `d`, by quadrant symmetry.
pub open spec fn sin_milli(d: int) -> int {
    let n = norm360(d);
    if n <= 90 {
        sin_q_milli(n)
    } else if n <= 180 {
        sin_q_milli(180 - n)
    } else if n <= 270 {
        -sin_q_milli(n - 180)
    } else {
        -sin_q_milli(360 - n)
    }
}

/// Milli-cosine of `d` degrees.
pub open spec fn cos_milli(d: int) -> int {
    sin_milli(d + 90)
}

/// Reduce a rotation to `[0, 360)` degrees.
pub fn norm_deg(d: i32) -> (r: i32)
    ensures
        0 <= r < 360,
        r as int == norm360(d as int),
{
    let mut r = d;
    while r < 0
        invariant
            norm360(r as int) == norm360(d as int),
        decreases 359 - r as int,
    {
        proof {
            lemma_mod_multiples_vanish(1, r as int, 360);
        }
        r = r + 360;
    }
    while r >= 360
        invariant
            r >= 0,
            norm360(r as int) == norm360(d as int),
        decreases r as int,
    {
        proof {
            lemma_mod_multiples_vanish(1, r as int - 360, 360);
        }
        r = r - 360;
    }
    proof {
        lemma_small_mod(r as nat, 360);
    }
    r
}

/// Milli-sine of any rotation in degrees.
pub fn sin_mdeg(d: i32) -> (r: i32)
    ensures
        r as int == sin_milli(d as int),
        -1000 <= r <= 1000,
{
    let n = norm_deg(d);
    if n <= 90 {
        sin_q(n)
    } else if n <= 180 {
        sin_q(180 - n)
    } else if n <= 270 {
        -sin_q(n - 180)
    } else {
        -sin_q(360 - n)
    }
}

/// Rotations congruent modulo a full turn have the same sine.
pub proof fn lemma_sin_congruent(a: int, b: int)
    requires
        norm360(a) == norm360(b),
    ensures
        sin_milli(a) == sin_milli(b),
{
}

/// Adding a full turn leaves the reduced rotation unchanged.
pub proof fn lemma_norm_shift(a: int)
    ensures
        norm360(a + 360) == norm360(a),
{
    lemma_mod_multiples_vanish(1, a, 360);
}

/// Reducing first and then offsetting reduces to the same rotation.
pub proof fn lemma_norm_offset(d: int, c: int)
    ensures
        norm360(norm360(d) + c) == norm360(d + c),
{
    lemma_fundamental_div_mod(d, 360);
    lemma_mod_multiples_vanish(d / 360, norm360(d) + c, 360);
}

/// Milli-cosine of any rotation in degrees.
pub fn cos_mdeg(d: i32) -> (r: i32)
    ensures
        r as int == cos_milli(d as int),
        -1000 <= r <= 1000,
{
    let n = norm_deg(d);
    proof {
        lemma_norm_offset(d as int, 90);
    }
    sin_mdeg(n + 90)
}

/// Scaled product `s * m / 1000`, truncating toward zero; `m` may be negative.
pub open spec fn mul_div_milli(s: int, m: int) -> int {
    if m >= 0 {
        (s * m) / 1000
    } else {
        -((s * (-m)) / 1000)
    }
}

/// Per-tick x-displacement of a body with the given speed and rotation.
pub open spec fn delta_x(speed: int, rot: int) -> int {
    mul_div_milli(speed, sin_milli(rot))
}

/// Per-tick y-displacement; the y axis grows downward and rotation 0 points up.
pub open spec fn delta_y(speed: int, rot: int) -> int {
    -mul_div_milli(speed, cos_milli(rot))
}

/// Compute `mul_div_milli` on machine integers.
pub fn scaled_milli(speed: i32, milli: i32) -> (r: i32)
    requires
        0 <= speed <= 100_000,
        -1000 <= milli <= 1000,
    ensures
        r as int == mul_div_milli(speed as int, milli as int),
        -(speed as int) <= r as int <= speed as int,
{
    proof {
        lemma_mul_upper_bound(speed as int, 100_000, if milli >= 0 { milli as int } else { -milli as int }, 1000);
    }
    if milli >= 0 {
        let p: u64 = (speed as u64) * (milli as u64);
        let q: u64 = p / 1000;
        proof {
            lemma_div_is_ordered(p as int, 100_000_000, 1000);
            lemma_div_bound_by_speed(speed as int, milli as int);
        }
        q as i32
    } else {
        let p: u64 = (speed as u64) * ((-milli) as u64);
        let q: u64 = p / 1000;
        proof {
            lemma_div_is_ordered(p as int, 100_000_000, 1000);
            lemma_div_bound_by_speed(speed as int, -milli as int);
        }
        -(q as i32)
    }
}

/// The scaled displacement never exceeds the speed itself.
proof fn lemma_div_bound_by_speed(s: int, m: int)
    requires
        0 <= s,
        0 <= m <= 1000,
    ensures
        0 <= (s * m) / 1000 <= s,
{
    lemma_mul_upper_bound(s, s, m, 1000);
    lemma_div_is_ordered(0, s * m, 1000);
    lemma_div_is_ordered(s * m, s * 1000, 1000);
    assert(s * 1000 / 1000 == s) by {
        lemma_fundamental_div_mod(s * 1000, 1000);
        lemma_mod_multiples_vanish(s, 0, 1000);
    }
}

/// An x-edge bounce replaces the rotation `d` by `360 - d`: the sine of the
/// reflected rotation is the negation of the old one.
pub proof fn lemma_sin_reflect_x(d: int)
    ensures
        sin_milli(360 - d) == -sin_milli(d),
{
    let n = norm360(d);
    lemma_fundamental_div_mod(d, 360);
    lemma_mod_multiples_vanish(1 - d / 360, -n, 360);
    assert(norm360(360 - d) == norm360(-n));
    if n == 0 {
        lemma_small_mod(0, 360);
    } else {
        lemma_mod_multiples_vanish(1, -n, 360);
        lemma_small_mod((360 - n) as nat, 360);
        assert(norm360(-n) == 360 - n);
    }
}

/// A y-edge bounce replaces the rotation `d` by `180 - d` (or the congruent
/// `540 - d`): the cosine of the reflected rotation is the negation of the
/// old one.
pub proof fn lemma_cos_reflect_y(d: int)
    ensures
        cos_milli(180 - d) == -cos_milli(d),
        cos_milli(540 - d) == cos_milli(180 - d),
{
    lemma_sin_reflect_x(d + 90);
    assert(sin_milli(270 - d) == -sin_milli(d + 90));
    lemma_norm_shift(270 - d);
    lemma_sin_congruent(270 - d + 360, 270 - d);
    lemma_norm_shift((180 - d) + 90);
}

/// Reflecting the rotation at an x edge negates the x-displacement exactly.
pub proof fn lemma_delta_x_reflect(speed: int, d: int)
    ensures
        delta_x(speed, 360 - d) == -delta_x(speed, d),
{
    lemma_sin_reflect_x(d);
}

} // verus!
