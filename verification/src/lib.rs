//! The logic of the student council's monitor: upcoming calendar events,
//! departures of nearby stops, the semester's progress and the canteen's
//! menu, each read from the text that its source serves.
pub mod text;
pub mod time;
pub mod markup;
pub mod calendar;
pub mod cal;
pub mod trains;
pub mod semester;
pub mod mensa;
pub mod openmensa;
