//! The capture loop, one tick at a time: what to do next is decided here,
//! and done by whoever drives the loop.
use crate::encoder::{
    is_palette, mapped, process_frame, stuck_at, FrameError, IndexedFrame, Mapping,
};
use crate::parallax::{composed, update_pixel_buffer};
use crate::state::{Camera, Phase, State};
use vstd::prelude::*;

verus! {

/// What the driver of the loop has seen since the last tick.
#[derive(Debug, Clone, Copy, PartialEq, Eq, Structural)]
pub struct Tick {
    /// Whether the window is still open and no exit key is pressed. Without
    /// a window this is of no account.
    pub window_open: bool,
    /// The time since the last frame was encoded, in nanoseconds.
    pub elapsed_nanos: u128,
}

/// What the driver of the loop is to do after a tick.
#[derive(Debug)]
pub enum Action {
    /// Append the frame to the animation.
    Encode(IndexedFrame),
    /// Nothing: it is too early for the next frame.
    Skip,
    /// Close the animation and put it where it belongs.
    Finalize,
    /// Leave the loop without an animation: the window was closed.
    Abandon,
    /// Nothing: the run is over.
    Idle,
}

/// Whether enough time has passed since the last frame for the next one:
/// at least the interval. With an interval of zero a frame is always due.
pub fn should_process_frame(elapsed_nanos: u128, interval_nanos: u128) -> (due: bool)
    ensures
        due == (elapsed_nanos >= interval_nanos),
        interval_nanos == 0 ==> due,
{
    elapsed_nanos >= interval_nanos
}

/// The camera's x after one more tick: further by the increment, and at the
/// end of its range where that would lead beyond it.
pub open spec fn advanced(x: usize, increment: usize) -> usize {
    if x + increment > usize::MAX {
        usize::MAX
    } else {
        (x + increment) as usize
    }
}

/// Moves the camera along x by the increment of the run. Nothing but the
/// camera changes.
pub fn simulate_camera_movement(state: &mut State)
    ensures
        final(state).camera == (Camera {
            x: advanced(old(state).camera.x, old(state).config.camera_x_increment),
            y: old(state).camera.y,
        }),
        *final(state) == (State { camera: final(state).camera, ..*old(state) }),
{
    let increment = state.config.camera_x_increment;
    if state.camera.x > usize::MAX - increment {
        state.camera.x = usize::MAX;
    } else {
        state.camera.x = state.camera.x + increment;
    }
}

/// One tick of the capture loop.
///
/// While the run is running, a tick repaints the canvas, moves the camera
/// and, if a frame is due, encodes the canvas as the next frame. The run
/// turns to finalizing with the frame that makes the animation complete,
/// and the next tick asks for the animation to be finalized, once. A closed
/// window ends a run that has one, without an animation. A frame that
/// cannot be encoded ends the run with the error.
pub fn tick(state: &mut State, event: &Tick) -> (result: Result<Action, FrameError>)
    requires
        old(state).well_formed(),
    ensures
        final(state).well_formed(),
        final(state).sprites == old(state).sprites,
        final(state).window_width == old(state).window_width,
        final(state).window_height == old(state).window_height,
        final(state).headless == old(state).headless,
        final(state).config == old(state).config,
        final(state).palette.mode == old(state).palette.mode,
        match old(state).phase {
            Phase::Done => {
                &&& result matches Ok(Action::Idle)
                &&& *final(state) == *old(state)
            },
            Phase::Finalizing => {
                &&& result matches Ok(Action::Finalize)
                &&& *final(state) == (State { phase: Phase::Done, ..*old(state) })
            },
            Phase::Running => if !old(state).headless && !event.window_open {
                &&& result matches Ok(Action::Abandon)
                &&& *final(state) == (State { phase: Phase::Done, ..*old(state) })
            } else {
                &&& final(state).window_buffer@ == composed(*old(state))
                &&& final(state).camera == (Camera {
                    x: advanced(old(state).camera.x, old(state).config.camera_x_increment),
                    y: old(state).camera.y,
                })
                &&& (result matches Ok(Action::Skip)) <==> event.elapsed_nanos
                    < old(state).config.frame_interval_nanos
                &&& match result {
                    Ok(Action::Skip) => {
                        &&& final(state).palette == old(state).palette
                        &&& final(state).frame_count == old(state).frame_count
                        &&& final(state).phase == Phase::Running
                    },
                    Ok(Action::Encode(frame)) => {
                        &&& is_palette(old(state).palette.color_map@)
                        &&& mapped(
                            old(state).palette.tables(),
                            old(state).palette.mode,
                            composed(*old(state)),
                            composed(*old(state)).len() as int,
                        ) == Some(
                            Mapping { indices: frame.buffer@, tables: final(state).palette.tables() },
                        )
                        &&& frame.palette@ == final(state).palette.color_map@
                        &&& frame.width == old(state).window_width
                        &&& frame.height == old(state).window_height
                        &&& frame.delay == crate::encoder::FRAME_DELAY
                        &&& final(state).frame_count == old(state).frame_count + 1
                        &&& final(state).phase == if final(state).frame_count
                            == old(state).config.max_frames {
                            Phase::Finalizing
                        } else {
                            Phase::Running
                        }
                    },
                    Ok(_) => false,
                    Err(FrameError::MalformedPalette) => {
                        &&& !is_palette(old(state).palette.color_map@)
                        &&& final(state).palette.tables() == old(state).palette.tables()
                        &&& final(state).frame_count == old(state).frame_count
                        &&& final(state).phase == Phase::Done
                    },
                    Err(FrameError::PaletteExhausted) => {
                        &&& is_palette(old(state).palette.color_map@)
                        &&& mapped(
                            old(state).palette.tables(),
                            old(state).palette.mode,
                            composed(*old(state)),
                            composed(*old(state)).len() as int,
                        ) is None
                        &&& exists|n: int|
                            stuck_at(
                                old(state).palette.tables(),
                                old(state).palette.mode,
                                composed(*old(state)),
                                n,
                                final(state).palette.tables(),
                            )
                        &&& final(state).frame_count == old(state).frame_count
                        &&& final(state).phase == Phase::Done
                    },
                }
            },
        },
{
    match state.phase {
        Phase::Done => {
            return Ok(Action::Idle);
        },
        Phase::Finalizing => {
            state.phase = Phase::Done;
            return Ok(Action::Finalize);
        },
        Phase::Running => {},
    }
    if !state.headless && !event.window_open {
        state.phase = Phase::Done;
        return Ok(Action::Abandon);
    }
    update_pixel_buffer(state);
    simulate_camera_movement(state);
    if !should_process_frame(event.elapsed_nanos, state.config.frame_interval_nanos) {
        return Ok(Action::Skip);
    }
    let width = state.window_width as u16;
    let height = state.window_height as u16;
    match process_frame(
        &state.window_buffer,
        &mut state.frame_count,
        &mut state.palette,
        width,
        height,
    ) {
        Ok(frame) => {
            if state.frame_count == state.config.max_frames {
                state.phase = Phase::Finalizing;
            }
            Ok(Action::Encode(frame))
        },
        Err(error) => {
            state.phase = Phase::Done;
            Err(error)
        },
    }
}

} // verus!
