//! The POSCAR structure file: a periodic cell, its atoms and the text that
//! holds them.

pub mod io;
pub mod laws;
pub mod types;

pub use self::io::{PoscarParseError, PoscarSection};
pub use self::types::{CoordinateSystem, Lattice, Poscar, PoscarView, SelectiveDynamics};
