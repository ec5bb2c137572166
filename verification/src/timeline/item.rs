//! A segment on a timeline: a time range carrying an optional content value
//! and a metadata store. It can stand for a clip, a subtitle, or a marker.

use vstd::prelude::*;

use crate::base::data_box::DataBox;
use crate::base::data_box::Value;
use crate::base::data_box::ValueModel;
use crate::base::metadata_support::MetadataSupport;
use crate::base::time::Time;
use crate::timeline::content_support_trait::ContentSupport;
use crate::timeline::timerange_trait::TimeRangeEditableTrait;
use crate::timeline::timerange_trait::TimeRangeTrait;

verus! {

/// The mathematical shape of a segment: its placement in time, its content,
/// and its metadata.
pub ghost struct ItemModel {
    pub start: int,
    pub duration: int,
    pub content: Option<ValueModel>,
    pub metadata: Map<Seq<char>, ValueModel>,
}

impl ItemModel {
    /// The end of the segment, in milliseconds.
    pub open spec fn end(self) -> int {
        self.start + self.duration
    }

    /// Whether start plus duration stays within the millisecond domain.
    pub open spec fn fits(self) -> bool {
        i128::MIN <= self.start + self.duration <= i128::MAX
    }
}

/// A segment placed on a timeline: a start, a duration, one optional content
/// value, and a metadata store.
#[derive(Debug)]
pub struct Item {
    start: Time,
    duration: Time,
    metadata: DataBox,
    content: Option<Value>,
}

impl View for Item {
    type V = ItemModel;

    closed spec fn view(&self) -> ItemModel {
        ItemModel {
            start: self.start@,
            duration: self.duration@,
            content: match self.content {
                Some(v) => Some(v@),
                None => None,
            },
            metadata: self.metadata@,
        }
    }
}

impl Item {
    /// Build a segment from a start and duration in milliseconds, holding
    /// the given content and no metadata.
    pub fn new(start: i128, duration: i128, content: Value) -> (r: Item)
        ensures
            r@ == (ItemModel {
                start: start as int,
                duration: duration as int,
                content: Some(content@),
                metadata: Map::<Seq<char>, ValueModel>::empty(),
            }),
    {
        Item {
            start: Time::new(start),
            duration: Time::new(duration),
            metadata: DataBox::new(),
            content: Some(content),
        }
    }

    /// Build an empty segment that covers the same time as a range object.
    pub fn from_timerange<T: TimeRangeTrait>(range: T) -> (r: Item)
        ensures
            r@ == (ItemModel {
                start: range.start_ms(),
                duration: range.duration_ms(),
                content: None::<ValueModel>,
                metadata: Map::<Seq<char>, ValueModel>::empty(),
            }),
    {
        Item {
            start: range.start(),
            duration: range.duration(),
            metadata: DataBox::new(),
            content: None,
        }
    }
}

impl Default for Item {
    /// An empty segment at time zero with no duration.
    fn default() -> (r: Item)
        ensures
            r@ == (ItemModel {
                start: 0,
                duration: 0,
                content: None::<ValueModel>,
                metadata: Map::<Seq<char>, ValueModel>::empty(),
            }),
    {
        Item {
            start: Time::new(0),
            duration: Time::new(0),
            metadata: DataBox::new(),
            content: None,
        }
    }
}

impl Clone for Item {
    /// A clone stands for the same segment.
    fn clone(&self) -> (r: Item)
        ensures
            r@ == self@,
    {
        Item {
            start: self.start,
            duration: self.duration,
            metadata: self.metadata.clone(),
            content: match &self.content {
                Some(v) => Some(v.clone()),
                None => None,
            },
        }
    }
}

impl ContentSupport for Item {
    open spec fn content_model(&self) -> Option<ValueModel> {
        self@.content
    }

    /// Read the content, if any.
    fn get_content(&self) -> (r: Option<Value>) {
        match &self.content {
            Some(v) => Some(v.clone()),
            None => None,
        }
    }

    /// Store `content`, discarding the previous content; the rest of the
    /// segment stays as it is.
    fn set_content(&mut self, content: Value)
        ensures
            final(self)@ == (ItemModel { content: Some(content@), ..old(self)@ }),
    {
        self.content = Some(content);
    }

    /// Drop the content; the rest of the segment stays as it is.
    fn clear_content(&mut self)
        ensures
            final(self)@ == (ItemModel { content: None::<ValueModel>, ..old(self)@ }),
    {
        self.content = None;
    }
}

impl TimeRangeTrait for Item {
    open spec fn start_ms(&self) -> int {
        self@.start
    }

    open spec fn duration_ms(&self) -> int {
        self@.duration
    }

    fn start(&self) -> (r: Time) {
        self.start
    }

    fn duration(&self) -> (r: Time) {
        self.duration
    }

    fn end(&self) -> (r: Time) {
        Time::new(self.start.to_millisecond() + self.duration.to_millisecond())
    }

    fn contains(&self, time: &Time) -> (r: bool) {
        let s: i128 = self.start.to_millisecond();
        let e: i128 = s + self.duration.to_millisecond();
        let t: i128 = time.to_millisecond();
        s <= t && t <= e
    }

    fn overlaps(&self, other: &Item) -> (r: bool) {
        let s1: i128 = self.start.to_millisecond();
        let e1: i128 = s1 + self.duration.to_millisecond();
        let s2: i128 = other.start.to_millisecond();
        let e2: i128 = s2 + other.duration.to_millisecond();
        s1 <= e2 && e1 >= s2
    }
}

impl TimeRangeEditableTrait for Item {
    /// Move the start; duration, content and metadata stay as they are.
    fn set_start(&mut self, start: Time)
        ensures
            final(self)@ == (ItemModel { start: start@, ..old(self)@ }),
    {
        self.start = start;
    }

    /// Change the duration; start, content and metadata stay as they are.
    fn set_duration(&mut self, duration: Time)
        ensures
            final(self)@ == (ItemModel { duration: duration@, ..old(self)@ }),
    {
        self.duration = duration;
    }

    /// Move the end by recomputing the duration; start, content and metadata
    /// stay as they are.
    fn set_end(&mut self, end: Time)
        ensures
            final(self)@ == (ItemModel { duration: end@ - old(self)@.start, ..old(self)@ }),
    {
        self.duration = Time::new(end.to_millisecond() - self.start.to_millisecond());
    }

    /// Shift the whole segment; duration, content and metadata stay as they
    /// are.
    fn shift_time(&mut self, shift: Time)
        ensures
            final(self)@ == (ItemModel { start: old(self)@.start + shift@, ..old(self)@ }),
    {
        self.start = Time::new(self.start.to_millisecond() + shift.to_millisecond());
    }
}

impl MetadataSupport for Item {
    open spec fn metadata(&self) -> Map<Seq<char>, ValueModel> {
        self@.metadata
    }

    /// Read the metadata value under `key`.
    fn get_metadata(&self, key: &str) -> (r: Option<Value>) {
        self.metadata.get(key)
    }

    /// Store `value` under `key`; the rest of the segment stays as it is.
    fn set_metadata(&mut self, key: &str, value: Value)
        ensures
            final(self)@ == (ItemModel {
                metadata: old(self)@.metadata.insert(key@, value@),
                ..old(self)@
            }),
    {
        self.metadata.set(key, value);
    }

    /// Drop the metadata under `key`; the rest of the segment stays as it
    /// is.
    fn erase_metadata(&mut self, key: &str)
        ensures
            final(self)@ == (ItemModel {
                metadata: old(self)@.metadata.remove(key@),
                ..old(self)@
            }),
    {
        self.metadata.erase(key);
    }

    /// Drop all metadata; the rest of the segment stays as it is.
    fn clear_metadata(&mut self)
        ensures
            final(self)@ == (ItemModel {
                metadata: Map::<Seq<char>, ValueModel>::empty(),
                ..old(self)@
            }),
    {
        self.metadata.clear();
    }
}

} // verus!
