use vstd::prelude::*;
use crate::components::{
    MaxVelocity, NpcPosition, SubtileOffset, Velocity, HALF_SUBTILE_UNITS_PER_TILE,
    SUBTILE_UNITS_PER_TILE,
};
use crate::grid::{grid_contains, CellCoord, GridSize};
use crate::roads::RoadTier;

verus! {

/// Subtile units from a position to the center of a target cell, per axis.
pub open spec fn spec_target_delta(position: NpcPosition, target: CellCoord) -> (int, int) {
    (
        (target.x - position.coord.x) * SUBTILE_UNITS_PER_TILE - position.subtile_offset.x_units,
        (target.y - position.coord.y) * SUBTILE_UNITS_PER_TILE - position.subtile_offset.y_units,
    )
}

pub fn target_delta_units(position: NpcPosition, target: CellCoord) -> (r: (i64, i64))
    ensures
        r.0 == spec_target_delta(position, target).0,
        r.1 == spec_target_delta(position, target).1,
{
    assert(SUBTILE_UNITS_PER_TILE == 1024);
    let ex: i64 = target.x as i64 - position.coord.x as i64;
    let ey: i64 = target.y as i64 - position.coord.y as i64;
    let dx = ex * 1024 - position.subtile_offset.x_units as i64;
    let dy = ey * 1024 - position.subtile_offset.y_units as i64;
    (dx, dy)
}

pub fn squared_distance(delta: (i64, i64)) -> (r: i64)
    requires
        delta.0 * delta.0 + delta.1 * delta.1 <= i64::MAX,
    ensures
        r == delta.0 * delta.0 + delta.1 * delta.1,
{
    proof {
        assert(0 <= delta.0 * delta.0) by (nonlinear_arith);
        assert(0 <= delta.1 * delta.1) by (nonlinear_arith);
    }
    delta.0 * delta.0 + delta.1 * delta.1
}

/// Speed ratio of the cell moved to: its completed road's, or one.
pub open spec fn speed_ratio(road: Option<RoadTier>) -> (u32, u32) {
    match road {
        Some(t) => t.spec_movement_ratio(),
        None => (1, 1),
    }
}

/// Largest step this tick: the NPC's speed scaled by the road's ratio.
pub open spec fn spec_max_step(max_velocity: MaxVelocity, road: Option<RoadTier>) -> int {
    max_velocity.units_per_tick * speed_ratio(road).0 / speed_ratio(road).1 as int
}

pub fn max_step(max_velocity: MaxVelocity, road: Option<RoadTier>) -> (r: i64)
    ensures
        r == spec_max_step(max_velocity, road),
        r >= 0,
{
    let (num, den) = match road {
        Some(t) => t.movement_ratio(),
        None => (1u32, 1u32),
    };
    let speed = max_velocity.units_per_tick as i64;
    proof {
        assert(0 <= speed * num <= 0xffff_ffff * 3) by (nonlinear_arith)
            requires
                0 <= speed <= 0xffff_ffff,
                0 <= num <= 3,
        ;
    }
    speed * num as i64 / den as i64
}

/// What moving toward a target does this tick.
#[derive(Debug, Clone, Copy, PartialEq, Eq, Structural)]
pub enum MovementDecision {
    /// The target is off the grid: stop and drop it.
    Stop,
    /// Already at the target's center: stop, center on the cell, drop the target.
    Arrived,
    /// The NPC cannot move this tick: stop.
    Wait,
    /// The target is within one step: jump onto it with this velocity
    /// (for facing), then stop and drop the target.
    Snap { velocity: Velocity },
    /// Take a step of at most `max_step` units along the delta.
    Step { delta_x: i64, delta_y: i64, max_step: i64 },
}

/// The movement decision of an NPC heading to a target cell.
pub fn movement_decision(
    size: GridSize,
    position: NpcPosition,
    target: CellCoord,
    max_velocity: MaxVelocity,
    road: Option<RoadTier>,
) -> (r: MovementDecision)
    requires
        ({
            let d = spec_target_delta(position, target);
            let m = spec_max_step(max_velocity, road);
            &&& d.0 * d.0 + d.1 * d.1 <= i64::MAX
            &&& m * m <= i64::MAX
        }),
    ensures
        ({
            let d = spec_target_delta(position, target);
            let m = spec_max_step(max_velocity, road);
            if !grid_contains(size, target) {
                r == MovementDecision::Stop
            } else if d.0 == 0 && d.1 == 0 {
                r == MovementDecision::Arrived
            } else if m == 0 {
                r == MovementDecision::Wait
            } else if d.0 * d.0 + d.1 * d.1 <= m * m {
                r == MovementDecision::Snap { velocity: Velocity { x_units_per_tick: d.0 as i32, y_units_per_tick: d.1 as i32 } }
            } else {
                r == MovementDecision::Step { delta_x: d.0 as i64, delta_y: d.1 as i64, max_step: m as i64 }
            }
        }),
{
    if !size.contains(target) {
        return MovementDecision::Stop;
    }
    let delta = target_delta_units(position, target);
    let m = max_step(max_velocity, road);
    if delta.0 == 0 && delta.1 == 0 {
        return MovementDecision::Arrived;
    }
    if m == 0 {
        return MovementDecision::Wait;
    }
    let sq = squared_distance(delta);
    if sq <= m * m {
        let vx = #[verifier::truncate] (delta.0 as i32);
        let vy = #[verifier::truncate] (delta.1 as i32);
        MovementDecision::Snap { velocity: Velocity { x_units_per_tick: vx, y_units_per_tick: vy } }
    } else {
        MovementDecision::Step { delta_x: delta.0, delta_y: delta.1, max_step: m }
    }
}

/// Whole cells and remaining units of an axis offset, with the remainder in
/// `[-HALF, HALF)` subtile units.
pub open spec fn normalized(units: int, cells: int, rest: int) -> bool {
    units == cells * SUBTILE_UNITS_PER_TILE + rest && -HALF_SUBTILE_UNITS_PER_TILE <= rest < HALF_SUBTILE_UNITS_PER_TILE
}

/// Whole cells carried out of an axis offset: the `cells` of `normalized`.
pub open spec fn axis_carry(units: int) -> int {
    (units + HALF_SUBTILE_UNITS_PER_TILE) / SUBTILE_UNITS_PER_TILE as int
}

pub fn normalize_axis(units: i32) -> (r: (i32, i32))
    ensures
        normalized(units as int, r.0 as int, r.1 as int),
        r.0 == axis_carry(units as int),
{
    assert(SUBTILE_UNITS_PER_TILE == 1024 && HALF_SUBTILE_UNITS_PER_TILE == 512);
    let u: i64 = units as i64 + 512;
    let d: i64 = if u >= 0 {
        let q = u / 1024;
        proof {
            assert(q * 1024 <= u < q * 1024 + 1024) by (nonlinear_arith)
                requires
                    u >= 0,
                    q == u / 1024,
            ;
        }
        q
    } else {
        let v: i64 = -u;
        let q = (v + 1023) / 1024;
        proof {
            assert(v <= q * 1024 < v + 1024) by (nonlinear_arith)
                requires
                    v > 0,
                    q == (v + 1023) / 1024,
            ;
        }
        -q
    };
    proof {
        assert(d * 1024 <= u < d * 1024 + 1024);
        assert(-0x20_0000 <= d <= 0x20_0000) by (nonlinear_arith)
            requires
                d * 1024 <= u < d * 1024 + 1024,
                -0x8000_0000 + 512 <= u <= 0x7fff_ffff + 512,
        ;
    }
    proof {
        vstd::arithmetic::div_mod::lemma_fundamental_div_mod_converse(
            u as int,
            1024,
            d as int,
            u - d * 1024,
        );
    }
    let rest: i64 = units as i64 - d * 1024;
    (d as i32, rest as i32)
}

/// Moves a position by a step of subtile units, carrying whole cells into
/// the cell coordinate.
pub fn apply_step(position: &mut NpcPosition, step: (i32, i32))
    requires
        i32::MIN <= old(position).subtile_offset.x_units + step.0 <= i32::MAX,
        i32::MIN <= old(position).subtile_offset.y_units + step.1 <= i32::MAX,
        i32::MIN <= old(position).coord.x + axis_carry(old(position).subtile_offset.x_units + step.0) <= i32::MAX,
        i32::MIN <= old(position).coord.y + axis_carry(old(position).subtile_offset.y_units + step.1) <= i32::MAX,
    ensures
        ({
            let x = old(position).subtile_offset.x_units + step.0;
            let y = old(position).subtile_offset.y_units + step.1;
            &&& normalized(x, final(position).coord.x - old(position).coord.x, final(position).subtile_offset.x_units as int)
            &&& normalized(y, final(position).coord.y - old(position).coord.y, final(position).subtile_offset.y_units as int)
        }),
{
    let x_units = position.subtile_offset.x_units + step.0;
    let y_units = position.subtile_offset.y_units + step.1;
    let (dx, x_offset) = normalize_axis(x_units);
    let (dy, y_offset) = normalize_axis(y_units);
    proof {
        assert(-0x20_0000 <= dx <= 0x20_0000) by (nonlinear_arith)
            requires
                x_units == dx * 1024 + x_offset,
                -512 <= x_offset < 512,
                i32::MIN <= x_units <= i32::MAX,
        ;
        assert(-0x20_0000 <= dy <= 0x20_0000) by (nonlinear_arith)
            requires
                y_units == dy * 1024 + y_offset,
                -512 <= y_offset < 512,
                i32::MIN <= y_units <= i32::MAX,
        ;
    }
    position.coord = CellCoord::new(position.coord.x + dx, position.coord.y + dy);
    position.subtile_offset = SubtileOffset { x_units: x_offset, y_units: y_offset };
}

} // verus!
