//! The library as a terminal shows it: what the keys do, what the views hold
//! and what the lines on the screen say. Drawing is left to the program.
pub mod app;
pub mod clock;
pub mod den;
pub mod key_laws;
pub mod keys;
pub mod laws;
pub mod screen;
pub mod screen_laws;
pub mod search;
pub mod ui;
pub mod view_laws;
pub mod viewer;
