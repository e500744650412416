//! Control inputs in fixed point: a distance unit is `UNIT` steps.
use vstd::prelude::*;

verus! {

/// Fixed-point steps in one distance unit.
pub const UNIT: i32 = 1000000;

/// One component of a normalised diagonal: `UNIT / sqrt(2)` rounded down, so
/// that a normalised diagonal is never longer than a unit.
pub const DIAG: i32 = 707106;

/// Distance units moved per accepted input at full deflection.
pub const SPEED: i64 = 5;

/// A discrete direction for paddle-style control.
#[derive(Clone, Copy, Debug, PartialEq, Eq, Structural)]
pub enum Direction {
    Up,
    Down,
    Still,
}

/// The signed unit step of a direction: +1 for `Up`, -1 for `Down`, 0 for `Still`.
pub open spec fn direction_sign(d: Direction) -> int {
    match d {
        Direction::Up => 1,
        Direction::Down => -1,
        Direction::Still => 0,
    }
}

/// A 2D control delta in fixed point; each component lies in `[-UNIT, UNIT]`.
#[derive(Clone, Copy, Debug, PartialEq, Eq, Structural)]
pub struct ControlDelta {
    pub dx: i32,
    pub dy: i32,
}

impl ControlDelta {
    /// Both components lie in `[-UNIT, UNIT]`.
    pub open spec fn in_range(self) -> bool {
        -UNIT <= self.dx <= UNIT && -UNIT <= self.dy <= UNIT
    }

    /// Whether both components lie in `[-UNIT, UNIT]`.
    pub fn is_in_range(&self) -> (r: bool)
        ensures
            r == self.in_range(),
    {
        -UNIT <= self.dx && self.dx <= UNIT && -UNIT <= self.dy && self.dy <= UNIT
    }
}

pub open spec fn sign_of(v: int) -> int {
    if v > 0 {
        1
    } else if v < 0 {
        -1
    } else {
        0
    }
}

/// A component scaled by `DIAG / UNIT`, rounded toward zero.
pub open spec fn scaled(c: int) -> int {
    if c >= 0 {
        c * (DIAG as int) / (UNIT as int)
    } else {
        -((-c) * (DIAG as int) / (UNIT as int))
    }
}

/// The squared length of a delta, in steps squared.
pub open spec fn sq_len(d: ControlDelta) -> int {
    d.dx * d.dx + d.dy * d.dy
}

/// The delta that is applied for `d`: one longer than a unit (a full
/// diagonal) has each component divided by `sqrt(2)`, that is scaled by
/// `DIAG / UNIT`; any other is applied as it is.
pub open spec fn normalize(d: ControlDelta) -> ControlDelta {
    if sq_len(d) > UNIT * UNIT {
        ControlDelta { dx: scaled(d.dx as int) as i32, dy: scaled(d.dy as int) as i32 }
    } else {
        d
    }
}

fn scale_component(c: i32) -> (r: i32)
    ensures
        r == scaled(c as int),
        -UNIT <= c <= UNIT ==> -UNIT <= r <= UNIT,
{
    if c >= 0 {
        let m: i64 = (c as i64) * (DIAG as i64);
        assert(0 <= m <= c * DIAG) by (nonlinear_arith)
            requires m == c * DIAG, c >= 0;
        assert(m / (UNIT as i64) <= c) by (nonlinear_arith)
            requires m == c * DIAG, c >= 0;
        (m / (UNIT as i64)) as i32
    } else {
        let n: i64 = -(c as i64);
        let m: i64 = n * (DIAG as i64);
        assert(0 <= m / (UNIT as i64) <= n) by (nonlinear_arith)
            requires m == n * DIAG, n > 0;
        -((m / (UNIT as i64)) as i32)
    }
}

/// The delta that is applied for `d` (see `normalize`).
pub fn normalize_delta(d: ControlDelta) -> (r: ControlDelta)
    ensures
        r == normalize(d),
        d.in_range() ==> r.in_range(),
{
    let x: i128 = d.dx as i128;
    let y: i128 = d.dy as i128;
    let u: i128 = UNIT as i128;
    assert(0 <= x * x <= 0x4000_0000_0000_0000) by (nonlinear_arith)
        requires -0x8000_0000 <= x <= 0x7fff_ffff;
    assert(0 <= y * y <= 0x4000_0000_0000_0000) by (nonlinear_arith)
        requires -0x8000_0000 <= y <= 0x7fff_ffff;
    if x * x + y * y > u * u {
        ControlDelta { dx: scale_component(d.dx), dy: scale_component(d.dy) }
    } else {
        d
    }
}

/// The raw delta of a key-axis reading: each axis a full unit in the
/// direction of the sign of `x` and `y`.
pub open spec fn axis_delta(x: int, y: int) -> ControlDelta {
    ControlDelta { dx: (sign_of(x) * UNIT) as i32, dy: (sign_of(y) * UNIT) as i32 }
}

/// Builds the control delta of a key-axis reading: `x` is right minus left,
/// `y` is up minus down; only their signs count. A diagonal reading is
/// normalized, so that the delta has unit length.
pub fn key_delta(x: i8, y: i8) -> (r: ControlDelta)
    ensures
        r == normalize(axis_delta(x as int, y as int)),
        r.in_range(),
{
    let sx: i32 = if x > 0 {
        1
    } else if x < 0 {
        -1
    } else {
        0
    };
    let sy: i32 = if y > 0 {
        1
    } else if y < 0 {
        -1
    } else {
        0
    };
    normalize_delta(ControlDelta { dx: sx * UNIT, dy: sy * UNIT })
}

/// The delta of a discrete direction: a full unit along `y`.
pub fn direction_delta(d: Direction) -> (r: ControlDelta)
    ensures
        r.dx == 0,
        r.dy == direction_sign(d) * UNIT,
        r.in_range(),
{
    match d {
        Direction::Up => ControlDelta { dx: 0, dy: UNIT },
        Direction::Down => ControlDelta { dx: 0, dy: -UNIT },
        Direction::Still => ControlDelta { dx: 0, dy: 0 },
    }
}

/// A moving key-axis reading is normalized to unit length: the squared
/// length is within three steps of a unit's, `UNIT * UNIT` (a diagonal moves
/// `DIAG` along each axis, not a full unit).
pub proof fn lemma_normalized_unit_length(x: int, y: int)
    requires
        x != 0 || y != 0,
    ensures
        UNIT * UNIT - 3 * UNIT <= sq_len(normalize(axis_delta(x, y))) <= UNIT * UNIT,
{
    let d = axis_delta(x, y);
    let n = normalize(d);
    assert(scaled(UNIT as int) == DIAG);
    assert(scaled(-UNIT) == -DIAG);
    assert(d.dx == sign_of(x) * UNIT && d.dy == sign_of(y) * UNIT);
    if sign_of(x) != 0 && sign_of(y) != 0 {
        assert(d.dx * d.dx == UNIT * UNIT) by (nonlinear_arith)
            requires d.dx == UNIT || d.dx == -UNIT;
        assert(d.dy * d.dy == UNIT * UNIT) by (nonlinear_arith)
            requires d.dy == UNIT || d.dy == -UNIT;
        assert(n.dx == DIAG || n.dx == -DIAG);
        assert(n.dy == DIAG || n.dy == -DIAG);
        assert(n.dx * n.dx == DIAG * DIAG) by (nonlinear_arith)
            requires n.dx == DIAG || n.dx == -DIAG;
        assert(n.dy * n.dy == DIAG * DIAG) by (nonlinear_arith)
            requires n.dy == DIAG || n.dy == -DIAG;
    } else {
        assert(d.dx * d.dx + d.dy * d.dy == UNIT * UNIT) by (nonlinear_arith)
            requires
                d.dx == sign_of(x) * UNIT,
                d.dy == sign_of(y) * UNIT,
                sign_of(x) == 0 || sign_of(y) == 0,
                sign_of(x) != 0 || sign_of(y) != 0,
                -1 <= sign_of(x) <= 1,
                -1 <= sign_of(y) <= 1;
        assert(n == d);
    }
}

proof fn lemma_scaled_bound(c: int)
    requires
        -UNIT <= c <= UNIT,
    ensures
        -DIAG <= scaled(c) <= DIAG,
        scaled(c) * scaled(c) <= DIAG * DIAG,
{
    let u = UNIT as int;
    let g = DIAG as int;
    let a = if c >= 0 { c } else { -c };
    assert(a * g <= u * g) by (nonlinear_arith)
        requires 0 <= a <= u, g > 0;
    assert(a * g / u <= g) by (nonlinear_arith)
        requires 0 <= a * g <= u * g, u > 0;
    assert(0 <= a * g / u) by (nonlinear_arith)
        requires 0 <= a, g > 0, u > 0;
    let s = scaled(c);
    assert(s * s <= g * g) by (nonlinear_arith)
        requires -g <= s <= g;
}

/// Normalizing an in-range delta gives one no longer than a unit, which
/// normalizing again leaves as it is.
pub proof fn lemma_normalize_idempotent(d: ControlDelta)
    requires
        d.in_range(),
    ensures
        sq_len(normalize(d)) <= UNIT * UNIT,
        normalize(normalize(d)) == normalize(d),
{
    let n = normalize(d);
    if sq_len(d) > UNIT * UNIT {
        lemma_scaled_bound(d.dx as int);
        lemma_scaled_bound(d.dy as int);
        assert(sq_len(n) <= 2 * DIAG * DIAG);
    }
}

} // verus!
