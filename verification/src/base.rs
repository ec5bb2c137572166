//! Common components: the millisecond-precision time scalar, timebase and
//! timecode text handling, and a small string-keyed value store.

pub mod data_box;
pub mod metadata_support;
pub mod time;
pub mod timebase;
pub mod timecode_parts;

pub use data_box::DataBox;
pub use data_box::Value;
pub use data_box::ValueModel;
pub use metadata_support::MetadataSupport;
pub use time::Time;
pub use timebase::Timebase;
pub use timecode_parts::TimecodeFormatError;
pub use timecode_parts::TimecodeParts;
