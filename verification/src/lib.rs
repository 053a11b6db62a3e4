//! The rules of a soundboard with a virtual microphone.
//!
//! What happens when a sound is played, cued, sought, faded, renamed or removed; how
//! sounds are mixed and what the effects on the microphone do to a block of samples;
//! what the configuration means and which preset a chain of effects matches; what the
//! panel, the tray and the editor show. All of it is stated over plain values, and the
//! samples, volumes and times among them are single-precision numbers with exact
//! arithmetic ([`scalar`], [`rounding`], [`arithmetic`], [`ordered`], [`root`], and [`double`]
//! where positions need more).
//!
//! - [`audio`]: playback, mixing, waveforms, and the routing of the virtual microphone
//! - [`plugins`]: the effects, their controls and presets, and chains of them
//! - [`config`]: what is kept between two runs
//! - [`ui`], [`window`], [`tray`], [`hotkeys`]: what the user sees and does
//! - [`transfer`]: how files are moved
//! - [`text`], [`number`], [`path`], [`order`], [`search`], [`text_map`]: tools

pub mod arithmetic;
pub mod audio;
pub mod config;
pub mod double;
pub mod hotkeys;
pub mod number;
pub mod order;
pub mod ordered;
pub mod path;
pub mod plugins;
pub mod root;
pub mod rounding;
pub mod scalar;
pub mod search;
pub mod text;
pub mod text_map;
pub mod transfer;
pub mod tray;
pub mod ui;
pub mod window;
