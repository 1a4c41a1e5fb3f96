//! Property schema, override resolution and key/value codecs for the
//! entity properties read by a BSP light and geometry compiler.

pub mod text;
pub mod decimal;
pub mod codec;
pub mod value;
pub mod schema;
pub mod entity;
pub mod bundles;
