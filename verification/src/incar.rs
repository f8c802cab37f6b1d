//! The INCAR tag document: named parameters, each of a fixed kind, and the
//! text that holds them.

pub mod document;
pub mod laws;
pub mod schema;
pub mod tag;

pub use self::document::Incar;
pub use self::schema::{IncarTagType, TagSchema, ValidIncarValueType};
pub use self::tag::{IncarError, IncarTag};
