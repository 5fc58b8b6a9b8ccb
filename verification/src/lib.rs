#![allow(unused_imports)]

//! A bidirectional codec between a flat, line-oriented `key=value` text
//! format and an in-memory data model of records, optional fields,
//! primitive scalars and string-valued enumerations.

pub mod de;
pub mod error;
pub mod laws;
pub mod num;
pub mod read;
pub mod scan;
pub mod ser;
pub mod shape;

pub use de::from_slice;
pub use de::from_slice_value;
pub use de::from_str;
pub use de::from_str_value;
pub use de::Deserializer;
pub use error::Error;
pub use read::Read;
pub use read::SliceRead;
pub use read::StrRead;
pub use shape::Entry;
pub use shape::FieldShape;
pub use shape::Shape;
pub use shape::Value;
pub use shape::VariantKind;
pub use shape::VariantShape;
pub use ser::to_vec;
pub use ser::to_vec_value;
pub use ser::CompactFormatter;
pub use ser::Compound;
pub use ser::Formatter;
pub use ser::Serializer;
