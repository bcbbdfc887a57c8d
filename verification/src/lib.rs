//! A linear particle animation core: keyframe parameters are modelled as
//! exact rational numbers and interpolated over a system's period, and
//! particle systems (leaf emitters and composite groups) are advanced
//! frame by frame under an injected clock.

pub mod error;
pub mod geom;
pub mod groups;
pub mod linear_particles;
pub mod particle;
pub mod particle_sys;
pub mod ratio;
pub mod util;
