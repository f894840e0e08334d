//! A ray-casting renderer over a grid of tiles, with every step proved.
//!
//! - `framebuffer`: a row-major buffer of packed colours, with pixel and clipped
//!   rectangle writes.
//! - `map`: the grid of tiles, each a wall texture digit or a blank.
//! - `texture`: an atlas of square textures and the nearest-neighbour column resampling
//!   that every wall and sprite is drawn with.
//! - `renderer`: the phases of a frame on integers: the minimap, marching a ray through
//!   its samples to the first wall, compositing a wall column and recording its height,
//!   and drawing depth-tested, textured sprites.
//! - `ppm`: the binary PPM encoding of a finished frame.
//! - `util`: packing and unpacking of RGBA colours.

pub mod error;
pub mod framebuffer;
pub mod map;
pub mod ppm;
pub mod renderer;
pub mod texture;
pub mod util;
