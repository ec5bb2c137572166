//! The timeline components: time ranges, segments, tracks, and the timeline
//! that routes segments into tracks.

pub mod content_support_trait;
pub mod item;
pub mod timeline;
pub mod timerange;
pub mod timerange_trait;
pub mod track;

pub use content_support_trait::ContentSupport;
pub use item::Item;
pub use item::ItemModel;
pub use timeline::Timeline;
pub use timeline::TimelineModel;
pub use timerange::TimeRange;
pub use timerange_trait::TimeRangeEditableTrait;
pub use timerange_trait::TimeRangeTrait;
pub use track::BoundsError;
pub use track::Track;
pub use track::TrackModel;
