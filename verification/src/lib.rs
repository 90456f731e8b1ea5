//! Verified core of a satellite astrodynamics toolkit: time-system and
//! Earth-orientation enumerations, the epoch string grammar, and the
//! fixed-column Earth orientation parameter (EOP) file formats.

pub mod coordinates;
pub mod eop;
pub mod text;
pub mod time;
