//! Playback, the virtual microphone and its routing.

pub mod capture;
pub mod engine;
pub mod playback;
pub mod pw_config;
pub mod tick;
pub mod time;
pub mod virtual_device;
pub mod wave;
