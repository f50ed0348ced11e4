//! Vector path data, from text to screen.
//!
//! The heart of the crate reads path data: [`token`] splits the text into
//! commands, [`spath`] resolves the commands to absolute drawing primitives,
//! and [`decimal`] is the exact arithmetic that both count with, on top of the
//! character-level scanners of [`scan`].
//!
//! Around it stand the pieces that bring paths to a display without touching
//! one: [`svg`] picks path data out of a drawing, [`ditty`] turns primitives
//! into requests to a renderer, and [`gameloop`] decides, step by step, what a
//! frame loop does next.

pub mod decimal;
pub mod ditty;
pub mod gameloop;
pub mod scan;
pub mod spath;
pub mod svg;
pub mod token;
