//! Satellite tracking for a single ground station, as far as it can be done
//! in whole numbers and text.
//!
//! - [`passes`]: the acquisition-of-signal / loss-of-signal detector over a
//!   fixed-stride sweep, with the proof that its passes are well-formed,
//!   disjoint and exactly the transits that the sweep saw from rise to set.
//! - [`tracker`]: a ground station, orbital elements and the SGP4 constants
//!   that go with them.
//! - [`tle_loader`]: element sets as three lines of text, and the catalogue
//!   numbers of the satellites known by name.
//! - [`frequencies`]: the built-in frequency table and the fields of a SatNOGS
//!   transmitter record.
//! - [`validaciones`]: the plan and the tally of a minute-by-minute sweep.
//! - [`text`]: the operations on characters that the loaders rest on.

pub mod frequencies;
pub mod passes;
pub mod text;
pub mod tle_loader;
pub mod tracker;
pub mod validaciones;

pub use passes::Pass;
pub use tracker::{Tracker, TrackerError};
