//! The storage vocabulary: types, values, and their byte encodings.

pub mod bytes;
pub mod decimal;
pub mod float;
pub mod json;
pub mod text;
pub mod types;
pub mod codec;
pub mod row;
pub mod shown;
pub mod temporal;
pub mod uuid;
