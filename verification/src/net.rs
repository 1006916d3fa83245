//! What the game needs to know of the network session, and the pacing of
//! frames against the clock.

use vstd::prelude::*;

verus! {

/// The settings of the network session.
#[derive(Clone, Copy, Debug, PartialEq, Eq, Structural)]
pub struct GGRSConfig {
    pub multiplayer: bool,
    pub local_port: u16,
    pub remote_port: u16,
}

impl Default for GGRSConfig {
    fn default() -> (config: GGRSConfig)
        ensures
            config == (GGRSConfig { multiplayer: false, local_port: 1111, remote_port: 2222 }),
    {
        GGRSConfig { multiplayer: false, local_port: 1111, remote_port: 2222 }
    }
}

/// Frames of simulation in a second.
pub const FPS: u64 = 60;

/// The time of one frame in nanoseconds.
pub const FRAME_NANOS: u64 = 16666666;

/// The time of one frame, in nanoseconds, while this side runs ahead of the
/// other: a tenth longer, so that the other side catches up.
pub const SLOW_FRAME_NANOS: u64 = 18333333;

/// What to do in one pass of the game loop.
#[derive(Clone, Copy, Debug, PartialEq, Eq, Structural)]
pub struct FramePlan {
    /// How many frames of simulation to run.
    pub steps: u64,
    /// The time that is left over for the next pass, in nanoseconds.
    pub accumulator: u64,
    /// How many passes are still to be skipped.
    pub frames_to_skip: u32,
}

/// The time of one frame in nanoseconds.
pub open spec fn frame_time(frames_ahead: bool) -> int {
    if frames_ahead {
        SLOW_FRAME_NANOS as int
    } else {
        FRAME_NANOS as int
    }
}

/// `a + b`, stopping at the end of the `u64` range.
pub open spec fn add_u64(a: u64, b: u64) -> int {
    if a + b > u64::MAX {
        u64::MAX as int
    } else {
        a + b
    }
}

/// How many frames are run when `time` nanoseconds have come together:
/// one for each whole frame time in it.
pub open spec fn frames_due(time: int, frames_ahead: bool) -> int {
    if time <= 0 {
        0
    } else {
        time / frame_time(frames_ahead)
    }
}

/// Plans one pass of the game loop. The session may have asked to skip
/// passes; while passes are to be skipped, one is counted off and nothing is
/// simulated or put by. Otherwise the time since the last pass is added to
/// the time put by, and as long as at least one frame time has come
/// together a frame is run and its time is taken off.
pub fn plan_frames(
    frames_to_skip: u32,
    wait_recommendation: Option<u32>,
    accumulator: u64,
    delta: u64,
    frames_ahead: bool,
) -> (plan: FramePlan)
    ensures
        ({
            let to_skip = match wait_recommendation {
                Some(n) => n,
                None => frames_to_skip,
            };
            if to_skip > 0 {
                plan == (FramePlan {
                    steps: 0,
                    accumulator,
                    frames_to_skip: (to_skip - 1) as u32,
                })
            } else {
                &&& plan.frames_to_skip == 0
                &&& plan.steps == frames_due(add_u64(accumulator, delta), frames_ahead)
                &&& plan.accumulator == add_u64(accumulator, delta) - plan.steps * frame_time(
                    frames_ahead,
                )
                &&& plan.accumulator < frame_time(frames_ahead)
            }
        }),
{
    let to_skip = match wait_recommendation {
        Some(n) => n,
        None => frames_to_skip,
    };
    if to_skip > 0 {
        return FramePlan { steps: 0, accumulator, frames_to_skip: to_skip - 1 };
    }
    let time = accumulator.saturating_add(delta);
    let frame = if frames_ahead {
        SLOW_FRAME_NANOS
    } else {
        FRAME_NANOS
    };
    let steps = time / frame;
    assert(steps * frame <= time && time - steps * frame < frame) by (nonlinear_arith)
        requires
            steps == (time as int) / (frame as int),
            frame > 0,
            time >= 0,
    ;
    FramePlan { steps, accumulator: time - steps * frame, frames_to_skip: 0 }
}

} // verus!
