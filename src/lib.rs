//! Convenience constructors for durations and an ISO 8601 duration text codec
//! (`PnDTnHnMnS`), with the decisions that serializing a duration field needs.

pub mod adapter;
pub mod decimal;
pub mod duration;
pub mod format;
pub mod laws;
pub mod parse;
pub mod signed;
mod text;

pub use duration::{
    from_hms, from_hms_micro, from_hms_micro_opt, from_hms_milli, from_hms_milli_opt, from_hms_nano,
    from_hms_nano_opt, from_hms_opt, Duration,
};
pub use format::to_iso8601;
pub use parse::from_iso8601;
