//! Subtitle components: the in-memory subtitle and the decisions of an SRT
//! reader; the reading itself lives with the caller.

pub mod srt_loader;
pub mod static_subtitle;

pub use srt_loader::SrtParseState;
pub use static_subtitle::StaticSubtitle;
