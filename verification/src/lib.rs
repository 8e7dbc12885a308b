//! MySQL column values: their SQL literal text, their binary-protocol
//! encoding, the text and binary row decoders, the statement-parameter
//! encoder, and conversions between values and Rust types.

pub mod binary;
pub mod convert;
pub mod double;
pub mod duration;
pub mod float;
pub mod numparse;
pub mod text;
pub mod tm;
pub mod value;
pub mod wire;

pub use binary::{Column, UNSIGNED_FLAG};
pub use convert::{from_value, from_value_opt, FromValue, ToValue};
pub use double::FloatBits;
pub use duration::Duration;
pub use tm::{tm_from_value, tm_to_value, TmFields};
pub use value::{Value, ValueModel};
