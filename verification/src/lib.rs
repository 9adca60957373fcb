//! Core logic of a terminal system monitor: capped metric histories, the
//! process table state machine, the filled-area graph layout and the text
//! helpers that the screens show.
pub mod app;
pub mod collect;
pub mod graph;
pub mod keys;
pub mod metric;
pub mod procs;
pub mod text;
pub mod ui;
