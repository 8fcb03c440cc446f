//! What a capture run holds between two ticks.
use crate::encoder::PaletteProvider;
use crate::layers::LAYER_COUNT;
use crate::raster::RasterImage;
use vstd::prelude::*;

verus! {

/// The position of the camera, in whole pixels.
#[derive(Debug, Clone, Copy, PartialEq, Eq, Structural)]
pub struct Camera {
    pub x: usize,
    pub y: usize,
}

impl Camera {
    /// A camera at the given position.
    pub fn new(x: usize, y: usize) -> (camera: Self)
        ensures
            camera == (Camera { x, y }),
    {
        Camera { x, y }
    }
}

/// Where a capture run stands.
#[derive(Debug, Clone, Copy, PartialEq, Eq, Structural)]
pub enum Phase {
    /// Frames are being composed and encoded.
    Running,
    /// The last frame has been encoded; the animation is to be finalized.
    Finalizing,
    /// Nothing is left to do.
    Done,
}

/// The settings of a capture run.
#[derive(Debug, Clone, Copy, PartialEq, Eq)]
pub struct CaptureConfig {
    /// For each layer, by how much its scroll is slower than the camera:
    /// the smaller the divisor, the nearer the layer seems.
    pub divisors: [usize; 4],
    /// By how much the vertical drift of the layers is slower than the
    /// camera.
    pub vertical_divisor: usize,
    /// How far the camera moves along x at each tick.
    pub camera_x_increment: usize,
    /// The number of frames of the animation.
    pub max_frames: usize,
    /// The least time, in nanoseconds, between two frames; with zero every
    /// tick gives a frame.
    pub frame_interval_nanos: u128,
}

impl Default for CaptureConfig {
    /// Divisors 16, 10, 6 and 1 from the farthest layer to the nearest, a
    /// vertical divisor of 666, 20 pixels a tick, 40 frames, a frame at
    /// every tick.
    fn default() -> (config: Self)
        ensures
            config.well_formed(),
            config.divisors@ == seq![16usize, 10, 6, 1],
            config.vertical_divisor == 666,
            config.camera_x_increment == 20,
            config.max_frames == 40,
            config.frame_interval_nanos == 0,
    {
        let config = CaptureConfig {
            divisors: [16, 10, 6, 1],
            vertical_divisor: 666,
            camera_x_increment: 20,
            max_frames: 40,
            frame_interval_nanos: 0,
        };
        assert(config.divisors@ =~= seq![16usize, 10, 6, 1]);
        config
    }
}

impl CaptureConfig {
    /// No divisor is zero.
    pub open spec fn well_formed(&self) -> bool {
        &&& forall|i: int| 0 <= i < LAYER_COUNT ==> #[trigger] self.divisors[i] > 0
        &&& self.vertical_divisor > 0
    }

    /// Whether no divisor is zero.
    pub fn is_valid(&self) -> (valid: bool)
        ensures
            valid == self.well_formed(),
    {
        self.divisors[0] > 0 && self.divisors[1] > 0 && self.divisors[2] > 0 && self.divisors[3]
            > 0 && self.vertical_divisor > 0
    }
}

/// The state of a capture run.
#[derive(Debug)]
pub struct State {
    pub camera: Camera,
    /// The four layers of the scene, the farthest first.
    pub sprites: Vec<RasterImage>,
    /// The canvas, row by row, each pixel as `0xRRGGBB`.
    pub window_buffer: Vec<u32>,
    pub window_width: usize,
    pub window_height: usize,
    /// Whether the run goes on without a window.
    pub headless: bool,
    pub palette: PaletteProvider,
    /// The number of frames encoded so far.
    pub frame_count: usize,
    pub phase: Phase,
    pub config: CaptureConfig,
}

impl State {
    /// There are four layers, each with pixels; the buffer is the canvas;
    /// the canvas is one that a frame can describe; no more frames are
    /// encoded than the animation is to have, and the run is over once all
    /// of them are.
    pub open spec fn well_formed(&self) -> bool {
        &&& self.sprites@.len() == LAYER_COUNT
        &&& forall|i: int|
            0 <= i < LAYER_COUNT ==> {
                &&& (#[trigger] self.sprites@[i]).well_formed()
                &&& self.sprites@[i].width > 0
            }
        &&& 0 < self.window_width <= u16::MAX
        &&& self.window_height <= u16::MAX
        &&& self.window_buffer@.len() == self.window_width * self.window_height
        &&& self.config.well_formed()
        &&& self.frame_count <= self.config.max_frames
        &&& self.phase == Phase::Running ==> self.frame_count < self.config.max_frames
    }

    /// The state at the start of a run over the given layers: the camera at
    /// the origin, a black canvas of the given size, no frame encoded yet.
    /// There is none where a layer is missing or has no pixels, where the
    /// canvas has no column or is larger than a frame can describe, or where
    /// a divisor is zero.
    pub fn new(
        sprites: Vec<RasterImage>,
        window_width: usize,
        window_height: usize,
        headless: bool,
        palette: PaletteProvider,
        config: CaptureConfig,
    ) -> (state: Option<State>)
        ensures
            state is Some <==> {
                &&& sprites@.len() == LAYER_COUNT
                &&& forall|i: int|
                    0 <= i < LAYER_COUNT ==> {
                        &&& (#[trigger] sprites@[i]).well_formed()
                        &&& sprites@[i].width > 0
                    }
                &&& 0 < window_width <= u16::MAX
                &&& window_height <= u16::MAX
                &&& config.well_formed()
            },
            state matches Some(s) ==> {
                &&& s.well_formed()
                &&& s.camera == (Camera { x: 0, y: 0 })
                &&& s.sprites == sprites
                &&& s.window_width == window_width
                &&& s.window_height == window_height
                &&& forall|p: int| 0 <= p < s.window_buffer@.len() ==> s.window_buffer@[p] == 0
                &&& s.headless == headless
                &&& s.palette == palette
                &&& s.frame_count == 0
                &&& s.config == config
                &&& s.phase == if config.max_frames == 0 {
                    Phase::Finalizing
                } else {
                    Phase::Running
                }
            },
    {
        if sprites.len() != LAYER_COUNT || window_width == 0 || window_width > u16::MAX as usize
            || window_height > u16::MAX as usize || !config.is_valid() {
            return None;
        }
        let mut i: usize = 0;
        while i < LAYER_COUNT
            invariant
                i <= LAYER_COUNT,
                sprites@.len() == LAYER_COUNT,
                forall|m: int|
                    0 <= m < i ==> {
                        &&& (#[trigger] sprites@[m]).well_formed()
                        &&& sprites@[m].width > 0
                    },
            decreases LAYER_COUNT - i,
        {
            if !sprites[i].is_well_formed() || sprites[i].width == 0 {
                return None;
            }
            i += 1;
        }
        assert(window_width * window_height <= 0xFFFE_0001) by (nonlinear_arith)
            requires
                window_width <= 0xFFFF,
                window_height <= 0xFFFF,
        ;
        let size = window_width * window_height;
        let mut window_buffer: Vec<u32> = Vec::new();
        let mut p: usize = 0;
        while p < size
            invariant
                p <= size,
                window_buffer@.len() == p,
                forall|q: int| 0 <= q < p ==> window_buffer@[q] == 0,
            decreases size - p,
        {
            window_buffer.push(0);
            p += 1;
        }
        let phase = if config.max_frames == 0 {
            Phase::Finalizing
        } else {
            Phase::Running
        };
        Some(
            State {
                camera: Camera::new(0, 0),
                sprites,
                window_buffer,
                window_width,
                window_height,
                headless,
                palette,
                frame_count: 0,
                phase,
                config,
            },
        )
    }
}

} // verus!
