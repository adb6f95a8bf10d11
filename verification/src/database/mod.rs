pub mod couch;
pub mod keymap;
pub mod lsmr;
