//! Angles in hundredths of a turn, and the sines and cosines that the arc
//! renderer needs, as integers scaled by 1024. Hundredths of a turn are the
//! unit in which every angle of the indicator is exact: a percent of
//! progress sweeps one hundredth.

use vstd::prelude::*;

verus! {

/// Hundredths in a full turn.
pub const TURN: u8 = 100;

/// The factor by which sines and cosines are scaled.
pub const TRIG_SCALE: i32 = 1024;

/// 1024 times the sine of `k` hundredths of a turn, to the nearest integer,
/// for the first quarter turn.
pub open spec fn quarter_sine(k: int) -> int {
    if k <= 0 {
        0
    } else if k == 1 {
        64
    } else if k == 2 {
        128
    } else if k == 3 {
        192
    } else if k == 4 {
        255
    } else if k == 5 {
        316
    } else if k == 6 {
        377
    } else if k == 7 {
        436
    } else if k == 8 {
        493
    } else if k == 9 {
        549
    } else if k == 10 {
        602
    } else if k == 11 {
        653
    } else if k == 12 {
        701
    } else if k == 13 {
        746
    } else if k == 14 {
        789
    } else if k == 15 {
        828
    } else if k == 16 {
        865
    } else if k == 17 {
        897
    } else if k == 18 {
        927
    } else if k == 19 {
        952
    } else if k == 20 {
        974
    } else if k == 21 {
        992
    } else if k == 22 {
        1006
    } else if k == 23 {
        1016
    } else if k == 24 {
        1022
    } else {
        1024
    }
}

/// 1024 times the sine of `a` hundredths of a turn, to the nearest integer.
pub open spec fn sine(a: int) -> int {
    let r = a % 100;
    if r <= 25 {
        quarter_sine(r)
    } else if r <= 50 {
        quarter_sine(50 - r)
    } else if r <= 75 {
        -quarter_sine(r - 50)
    } else {
        -quarter_sine(100 - r)
    }
}

/// 1024 times the cosine of `a` hundredths of a turn, to the nearest
/// integer.
pub open spec fn cosine(a: int) -> int {
    sine(a + 25)
}

fn quarter_sine_q10(k: u8) -> (s: i32)
    requires
        k <= 25,
    ensures
        s == quarter_sine(k as int),
        0 <= s <= 1024,
{
    if k == 0 {
        0
    } else if k == 1 {
        64
    } else if k == 2 {
        128
    } else if k == 3 {
        192
    } else if k == 4 {
        255
    } else if k == 5 {
        316
    } else if k == 6 {
        377
    } else if k == 7 {
        436
    } else if k == 8 {
        493
    } else if k == 9 {
        549
    } else if k == 10 {
        602
    } else if k == 11 {
        653
    } else if k == 12 {
        701
    } else if k == 13 {
        746
    } else if k == 14 {
        789
    } else if k == 15 {
        828
    } else if k == 16 {
        865
    } else if k == 17 {
        897
    } else if k == 18 {
        927
    } else if k == 19 {
        952
    } else if k == 20 {
        974
    } else if k == 21 {
        992
    } else if k == 22 {
        1006
    } else if k == 23 {
        1016
    } else if k == 24 {
        1022
    } else {
        1024
    }
}

/// 1024 times the sine of `a` hundredths of a turn.
pub fn sine_q10(a: u8) -> (s: i32)
    ensures
        s == sine(a as int),
        -1024 <= s <= 1024,
{
    let r: u8 = a % TURN;
    if r <= 25 {
        quarter_sine_q10(r)
    } else if r <= 50 {
        quarter_sine_q10(50 - r)
    } else if r <= 75 {
        -quarter_sine_q10(r - 50)
    } else {
        -quarter_sine_q10(100 - r)
    }
}

/// 1024 times the cosine of `a` hundredths of a turn.
pub fn cosine_q10(a: u8) -> (c: i32)
    ensures
        c == cosine(a as int),
        -1024 <= c <= 1024,
{
    let shifted: u8 = (a % TURN + 25) % TURN;
    sine_q10(shifted)
}

/// The quarter-turn angles are exact: the sine is 0, 1, 0 and -1 at 0, 25,
/// 50 and 75 hundredths, and the cosine 1, 0, -1 and 0.
pub proof fn lemma_quarter_turns()
    ensures
        sine(0) == 0 && cosine(0) == 1024,
        sine(25) == 1024 && cosine(25) == 0,
        sine(50) == 0 && cosine(50) == -1024,
        sine(75) == -1024 && cosine(75) == 0,
{
}

/// Over the first quarter turn the sine grows strictly.
pub proof fn lemma_quarter_sine_grows(j: int, k: int)
    requires
        0 <= j < k <= 25,
    ensures
        quarter_sine(j) < quarter_sine(k),
{
}

/// Sine and cosine stay within the scale, and repeat with each full turn.
pub proof fn lemma_trig_range(a: int)
    ensures
        -1024 <= sine(a) <= 1024,
        -1024 <= cosine(a) <= 1024,
        sine(a + 100) == sine(a),
        cosine(a + 100) == cosine(a),
{
}

/// Each direction is a unit vector to within the rounding of its
/// components: the squares of sine and cosine add up to the square of the
/// scale, give or take twice the scale.
pub proof fn lemma_unit_length(a: int)
    ensures
        1024 * 1024 - 2048 <= sine(a) * sine(a) + cosine(a) * cosine(a) <= 1024 * 1024 + 2048,
{
    let r = a % 100;
    let k = r % 25;
    let s = quarter_sine(k);
    let c = quarter_sine(25 - k);
    assert(1024 * 1024 - 2048 <= s * s + c * c <= 1024 * 1024 + 2048) by {
        lemma_quarter_unit(k);
    }
    let x = sine(a);
    let y = cosine(a);
    assert((x == s || x == -s || x == c || x == -c) && (y == s || y == -s || y == c || y == -c));
    assert(x * x + y * y == s * s + c * c) by (nonlinear_arith)
        requires
            (x == s || x == -s) && (y == c || y == -c) || (x == c || x == -c) && (y == s || y
                == -s),
    ;
}

proof fn lemma_quarter_unit(k: int)
    requires
        0 <= k <= 25,
    ensures
        1024 * 1024 - 2048 <= quarter_sine(k) * quarter_sine(k) + quarter_sine(25 - k)
            * quarter_sine(25 - k) <= 1024 * 1024 + 2048,
{
    if k <= 6 {
    } else if k <= 12 {
    } else if k <= 18 {
    } else {
    }
}

} // verus!
