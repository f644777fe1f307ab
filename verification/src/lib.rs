//! Verified core of a USB-serial LCD panel controller: a panel/sensor data
//! model, a render engine that composes an RGBA frame from sensor values,
//! and the chunked binary wire protocol that streams frames to the display.

pub mod aoo_screen;
pub mod cfg;
pub mod format_value;
pub mod img;
pub mod render;
pub mod sensors;
pub mod strutil;
pub mod system;
pub mod trig;
