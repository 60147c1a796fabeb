use vstd::prelude::*;

verus! {

/// Microseconds in a second.
pub const MICROS_PER_SECOND: i64 = 1_000_000;

/// Microseconds in a day.
pub const DAY_MICROS: i64 = 86_400_000_000;

/// Microseconds from midnight to the daily boundary, 08:00.
pub const BOUNDARY_MICROS: i64 = 28_800_000_000;

/// The latest 08:00 at or before the local time `local`, both in local
/// microseconds: `local` minus its distance past the last boundary.
pub open spec fn day_start(local: int) -> int {
    local - (local - BOUNDARY_MICROS) % (DAY_MICROS as int)
}

/// The cutoff for a viewer at `now` (UTC microseconds) where the local clock
/// runs `offset_secs` seconds ahead of UTC: the latest local 08:00 at or
/// before now, as a UTC instant.
pub open spec fn cutoff_for(now: int, offset_secs: int) -> int {
    let shift = offset_secs * MICROS_PER_SECOND;
    day_start(now + shift) - shift
}

/// As `cutoff_for`, where the local clock ran `boundary_offset_secs` seconds
/// ahead of UTC at the boundary itself (a daylight-saving change may lie
/// between the boundary and now).
pub open spec fn zoned_cutoff_for(now: int, offset_secs: int, boundary_offset_secs: int) -> int {
    day_start(now + offset_secs * MICROS_PER_SECOND) - boundary_offset_secs * MICROS_PER_SECOND
}

/// The times for which the cutoff is representable.
pub open spec fn cutoff_in_range(now: int) -> bool {
    i64::MIN + 3 * DAY_MICROS <= now <= i64::MAX - 2 * DAY_MICROS
}

/// The start of the viewer's window: today at 08:00 local time, or 08:00 the
/// day before when the local time is earlier than 08:00.
pub fn day_cutoff(now: i64, offset_secs: i32) -> (r: i64)
    requires
        -86_400 < offset_secs < 86_400,
        cutoff_in_range(now as int),
    ensures
        r == cutoff_for(now as int, offset_secs as int),
{
    assert(-DAY_MICROS < offset_secs * MICROS_PER_SECOND < DAY_MICROS) by (nonlinear_arith)
        requires
            -86_400 < offset_secs < 86_400,
    ;
    let shift: i64 = offset_secs as i64 * MICROS_PER_SECOND;
    let local: i64 = now + shift;
    let past: i64 = match (local - BOUNDARY_MICROS).checked_rem_euclid(DAY_MICROS) {
        Some(p) => p,
        None => 0,
    };
    assert(0 <= past < DAY_MICROS);
    local - past - shift
}

/// The cutoff for a clock reading `now` (UTC microseconds) where the local
/// clock runs `offset_secs` seconds ahead of UTC; `None` when that cutoff is
/// not representable.
pub fn cutoff_at(now: i64, offset_secs: i32) -> (r: Option<i64>)
    requires
        -86_400 < offset_secs < 86_400,
    ensures
        r is Some <==> cutoff_in_range(now as int),
        r matches Some(c) ==> c == cutoff_for(now as int, offset_secs as int),
{
    if now < i64::MIN + 3 * DAY_MICROS || now > i64::MAX - 2 * DAY_MICROS {
        None
    } else {
        Some(day_cutoff(now, offset_secs))
    }
}

/// The cutoff for a clock reading `now` with local offset `offset_secs`,
/// where the local offset at the boundary is `boundary_offset_secs`: the
/// latest local 08:00 at or before now, as a UTC instant; `None` when that
/// cutoff is not representable.
pub fn zoned_cutoff_at(now: i64, offset_secs: i32, boundary_offset_secs: i32) -> (r: Option<i64>)
    requires
        -86_400 < offset_secs < 86_400,
        -86_400 < boundary_offset_secs < 86_400,
    ensures
        r is Some <==> cutoff_in_range(now as int),
        r matches Some(c) ==> c == zoned_cutoff_for(
            now as int,
            offset_secs as int,
            boundary_offset_secs as int,
        ),
{
    if now < i64::MIN + 3 * DAY_MICROS || now > i64::MAX - 2 * DAY_MICROS {
        return None;
    }
    assert(-DAY_MICROS < offset_secs * MICROS_PER_SECOND < DAY_MICROS) by (nonlinear_arith)
        requires
            -86_400 < offset_secs < 86_400,
    ;
    assert(-DAY_MICROS < boundary_offset_secs * MICROS_PER_SECOND < DAY_MICROS)
        by (nonlinear_arith)
        requires
            -86_400 < boundary_offset_secs < 86_400,
    ;
    let local: i64 = now + offset_secs as i64 * MICROS_PER_SECOND;
    let past: i64 = match (local - BOUNDARY_MICROS).checked_rem_euclid(DAY_MICROS) {
        Some(p) => p,
        None => 0,
    };
    assert(0 <= past < DAY_MICROS);
    Some(local - past - boundary_offset_secs as i64 * MICROS_PER_SECOND)
}

} // verus!
