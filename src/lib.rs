//! Integer core of a procedural ring animation: how frames are split
//! across workers, where each frame's time lies on the animation's span,
//! how a frame buffer is laid out, and the bytes of each binary pixel-map
//! file together with its name.
pub mod frame;
pub mod partition;
pub mod ppm;
