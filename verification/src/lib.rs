use vstd::prelude::*;

pub mod text;
pub mod models;
pub mod device_group;
pub mod gestures;
pub mod daemon;
pub mod error;
pub mod platform;
pub mod linux;
pub mod windows;
pub mod logbook;
pub mod grouping;
