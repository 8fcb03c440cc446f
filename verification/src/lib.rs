//! A square image becomes a looping animation of four layers that scroll at
//! different speeds: its colors are clustered into a palette, the image is
//! cut into layers, and a capture loop composes the layers for a moving
//! camera and encodes each canvas with no more than 256 colors.
pub mod clustering;
pub mod color;
pub mod color_map;
pub mod encoder;
pub mod event_loop;
pub mod file_manager;
pub mod layers;
pub mod palette;
pub mod palette_laws;
pub mod parallax;
pub mod raster;
pub mod state;
pub mod text_processor;
