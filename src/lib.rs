//! A depth-aware rain simulation over a static scene raster.
//!
//! Droplets fall, collide with scene geometry, turn into splashes or slide
//! along the flow field as streams, and every tick the three populations are
//! rasterised into one byte per screen pixel.
//!
//! All quantities are fixed point: positions and depths are counted in
//! `1 / ONE` units (`ONE == 65536`), and a random draw is a 24-bit integer
//! read as the fraction `draw / 2^24`.
pub mod fixed;
pub mod scene;
pub mod terrain;
pub mod flow;
pub mod droplet;
pub mod splash;
pub mod stream;
pub mod render;
pub mod world;
pub mod laws;

pub use fixed::{ONE, DRAW_ONE};
pub use scene::Scene;
pub use terrain::{get_depth, get_height, is_ground, get_depth_raw, hits_surface, get_normal};
pub use flow::{get_flow, has_flow, flow_strength};
pub use droplet::{Droplet, Droplets, MAX_DROPS};
pub use splash::{Splash, Splashes, MAX_SPLASHES, SPLASH_FRAMES, CROWN, LEFT_BURST, RIGHT_BURST, SPRAY};
pub use stream::{Stream, Streams, MAX_STREAMS};
pub use render::{Encoder, SPLASH_OFFSET, STREAM_OFFSET};
pub use world::{RainWorld, SEED};
