//! The effects that are always there: their controls, their state, and what they do to
//! samples. Sines, powers and hyperbolic tangents come from outside.

pub mod bitcrush;
pub mod distortion;
pub mod gain;
pub mod gate;
pub mod telephone;

pub use bitcrush::BitcrushPlugin;
pub use distortion::DistortionPlugin;
pub use gain::GainPlugin;
pub use gate::NoiseGatePlugin;
pub use telephone::TelephonePlugin;
