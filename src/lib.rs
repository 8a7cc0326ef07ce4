//! Composes independently sourced images into one canvas laid out as a grid of
//! equally sized cells. Each source is scaled to fit its cell with its aspect
//! ratio kept, centred on a background colour, and copied into the canvas.
pub mod text;
pub mod error;
pub mod config;
pub mod grid;
pub mod combine;
pub mod combine_multithread;
