//! Aligns three independently captured survey streams — a log of camera
//! trigger timestamps, an ordered list of image file names, and a trajectory
//! of geo-pose samples — and produces, for each image, a pose linearly
//! interpolated at the exact trigger instant.
//!
//! All times are integers: calendar time is microseconds since the Unix
//! epoch, continuous-clock (GPS-week) time is microseconds in the same scale
//! before anchoring, and pose components are fixed-point integers whose scale
//! the caller chooses.

pub mod error;
pub mod interpolate;
pub mod parser;
pub mod event_marker;
pub mod position;
pub mod resolver;
pub mod synchronizer;
