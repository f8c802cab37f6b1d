//! Typed codecs for VASP input files: INCAR tag documents, POSCAR structure
//! files and KPOINTS meshes, together with the exact decimal arithmetic and
//! text utilities they rest on.

pub mod check_util;
pub mod decimal;
pub mod decimal_lemmas;
pub mod geometry;
pub mod incar;
pub mod kpoints;
pub mod number;
pub mod poscar;
pub mod potcar;
pub mod text;
pub mod text_lemmas;
pub mod util;

