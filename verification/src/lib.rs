//! Structured log records as newline-delimited JSON, encoded by hand.
//!
//! The crate holds the encoding engine only: a byte-level JSON writer, a
//! recorder that turns named, typed field values into object members, the
//! per-span fragment of recorded fields, a calendar clock, and the assembler
//! that lays out one record per line. Where events come from and where lines
//! go is the caller's business.

pub mod ascii;
pub mod clock;
pub mod decimal;
pub mod double;
pub mod escape;
pub mod layer;
pub mod render;
pub mod span;
pub mod unescape;
pub mod visitor;
pub mod writer;

pub use clock::{days_to_ymd, format_timestamp, format_unix_time, secs_to_datetime, ClockReading};
pub use double::Double;
pub use escape::{escape_json, escape_json_into};
pub use layer::{Event, JsonLayer, Options, Scope};
pub use span::SpanFields;
pub use visitor::{Field, FieldValue, JsonVisitor};
pub use writer::JsonWriter;
