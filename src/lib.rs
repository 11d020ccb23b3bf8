//! Assembles equally sized images into one contact sheet: a grid whose
//! extent along the major axis is bounded by a maximum pixel length.

pub mod canvas;
pub mod dimension;
pub mod error;
pub mod img;
pub mod layout;
pub mod opt;
pub mod order;
pub mod write_direction;

pub use opt::Opt;
