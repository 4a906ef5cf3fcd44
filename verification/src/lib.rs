//! Persistent user preferences and a named lens registry for a local search
//! application.
//!
//! The crate resolves platform storage locations, encodes and decodes the
//! preferences file in a human-editable RON-style text format (with a proved
//! write-then-read round trip), and builds the configuration aggregate that
//! the rest of the application reads.

pub mod decode;
pub mod encode;
pub mod paths;
pub mod round_trip;
pub mod settings;
pub mod store;

pub use decode::ParseError;
pub use settings::Lense;
pub use settings::Limit;
pub use settings::UserSettings;
pub use store::Config;
