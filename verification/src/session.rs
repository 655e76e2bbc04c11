//! What a session knows of itself: how long nobody has used it, what plays in it, what holds GPU
//! memory, and how its panel can be darkened.

pub mod backend;
pub mod display;
pub mod fdinfo;
pub mod gamepad;
pub mod lastinput;
pub mod mpris;
pub mod told;
