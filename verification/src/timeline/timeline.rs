//! The timeline: an ordered collection of tracks that routes each new
//! segment into the first track that can take it, and never runs out of
//! tracks.

use vstd::prelude::*;

use crate::base::data_box::DataBox;
use crate::base::data_box::Value;
use crate::base::data_box::ValueModel;
use crate::base::metadata_support::MetadataSupport;
use crate::timeline::item::Item;
use crate::timeline::item::ItemModel;
use crate::timeline::track::check_point;
use crate::timeline::track::extended_cache;
use crate::timeline::track::insert_point;
use crate::timeline::track::Track;
use crate::timeline::track::TrackModel;

verus! {

/// The mathematical shape of a timeline: its tracks in order, and its
/// metadata.
pub ghost struct TimelineModel {
    pub tracks: Seq<TrackModel>,
    pub metadata: Map<Seq<char>, ValueModel>,
}

/// An empty track: no segments, no cached extent, no metadata.
pub open spec fn empty_track() -> TrackModel {
    TrackModel {
        items: Seq::<ItemModel>::empty(),
        end_cache: None::<int>,
        metadata: Map::<Seq<char>, ValueModel>::empty(),
    }
}

/// Whether a track would accept a segment through the safe insertion: the
/// neighbour check passes at the segment's insert point.
pub open spec fn track_accepts(track: TrackModel, item: ItemModel) -> bool {
    check_point(track.items, insert_point(track, item.start), item)
}

/// The index of the first track at or after `i` that would accept the
/// segment, if any.
pub open spec fn first_fit_from(tracks: Seq<TrackModel>, item: ItemModel, i: int) -> Option<int>
    recommends
        0 <= i,
    decreases tracks.len() - i,
{
    if i < 0 || i >= tracks.len() {
        None
    } else if track_accepts(tracks[i], item) {
        Some(i)
    } else {
        first_fit_from(tracks, item, i + 1)
    }
}

/// The index of the first track that would accept the segment, if any.
pub open spec fn first_fit(tracks: Seq<TrackModel>, item: ItemModel) -> Option<int> {
    first_fit_from(tracks, item, 0)
}

/// A timeline: tracks in caller-significant order, never fewer than one.
///
/// New segments go to the first track that takes them without collision;
/// when every track rejects a segment, a fresh track is created for it at
/// the end.
#[derive(Debug)]
pub struct Timeline {
    tracks: Vec<Track>,
    metadata: DataBox,
}

impl View for Timeline {
    type V = TimelineModel;

    closed spec fn view(&self) -> TimelineModel {
        TimelineModel {
            tracks: self.tracks@.map_values(|t: Track| t@),
            metadata: self.metadata@,
        }
    }
}

impl Timeline {
    #[verifier::type_invariant]
    spec fn wf(&self) -> bool {
        self@.tracks.len() >= 1
    }

    /// A timeline holding one empty track and no metadata.
    pub fn new() -> (r: Timeline)
        ensures
            r@.tracks == seq![empty_track()],
            r@.metadata == Map::<Seq<char>, ValueModel>::empty(),
    {
        let mut tracks: Vec<Track> = Vec::new();
        tracks.push(Track::new());
        proof {
            assert(tracks@.map_values(|t: Track| t@) =~= seq![empty_track()]);
        }
        Timeline { tracks, metadata: DataBox::new() }
    }

    /// How many tracks the timeline holds; never fewer than one.
    pub fn tracks_count(&self) -> (r: usize)
        ensures
            r == self@.tracks.len(),
            r >= 1,
    {
        proof {
            use_type_invariant(&*self);
        }
        self.tracks.len()
    }

    /// Drop every track and start over with one empty track; the metadata
    /// stays as it is.
    pub fn clear(&mut self)
        ensures
            final(self)@.tracks == seq![empty_track()],
            final(self)@.metadata == old(self)@.metadata,
    {
        let mut tracks: Vec<Track> = Vec::new();
        tracks.push(Track::new());
        proof {
            assert(tracks@.map_values(|t: Track| t@) =~= seq![empty_track()]);
        }
        self.tracks = tracks;
    }

    /// Append a track. When the timeline holds exactly one track and that
    /// track carries no segment — the starting sentinel — the sentinel is
    /// discarded first, so the new track becomes the first.
    pub fn push_track(&mut self, track: Track)
        ensures
            final(self)@.tracks == (
            if old(self)@.tracks.len() == 1 && old(self)@.tracks[0].items.len() == 0 {
                seq![track@]
            } else {
                old(self)@.tracks.push(track@)
            }),
            final(self)@.metadata == old(self)@.metadata,
            final(self)@.tracks.len() >= 1,
    {
        proof {
            use_type_invariant(&*self);
        }
        let mut tracks: Vec<Track> = Vec::new();
        tracks.push(Track::new());
        std::mem::swap(&mut tracks, &mut self.tracks);
        if tracks.len() == 1 && tracks[0].is_empty() {
            tracks.clear();
            tracks.push(track);
            proof {
                assert(tracks@.map_values(|t: Track| t@) =~= seq![tracks@[0]@]);
            }
        } else {
            let ghost before = tracks@.map_values(|t: Track| t@);
            tracks.push(track);
            proof {
                assert(tracks@.map_values(|t: Track| t@) =~= before.push(
                    tracks@[tracks@.len() - 1]@,
                ));
            }
        }
        self.tracks = tracks;
    }

    /// Remove and return the track at `index`, or nothing when the index
    /// lies outside the timeline. Taking the last track leaves one fresh
    /// empty track behind, so the timeline never runs empty.
    pub fn take_track(&mut self, index: usize) -> (r: Option<Track>)
        ensures
            match r {
                Some(track) => {
                    &&& index < old(self)@.tracks.len()
                    &&& track@ == old(self)@.tracks[index as int]
                    &&& final(self)@.tracks == (
                    if old(self)@.tracks.len() == 1 {
                        seq![empty_track()]
                    } else {
                        old(self)@.tracks.remove(index as int)
                    })
                },
                None => {
                    &&& index >= old(self)@.tracks.len()
                    &&& final(self)@ == old(self)@
                },
            },
            final(self)@.metadata == old(self)@.metadata,
            final(self)@.tracks.len() >= 1,
    {
        proof {
            use_type_invariant(&*self);
        }
        if index >= self.tracks.len() {
            return None;
        }
        let ghost old_tracks = self@.tracks;
        let mut tracks: Vec<Track> = Vec::new();
        tracks.push(Track::new());
        std::mem::swap(&mut tracks, &mut self.tracks);
        let track = tracks.remove(index);
        if tracks.len() == 0 {
            tracks.push(Track::new());
            proof {
                assert(tracks@.map_values(|t: Track| t@) =~= seq![empty_track()]);
            }
        } else {
            proof {
                assert(tracks@.map_values(|t: Track| t@) =~= old_tracks.remove(index as int));
            }
        }
        self.tracks = tracks;
        Some(track)
    }

    /// Read the track at `index`, if there is one.
    pub fn get_track(&self, index: usize) -> (r: Option<&Track>)
        ensures
            match r {
                Some(track) => index < self@.tracks.len() && track@ == self@.tracks[index as int],
                None => index >= self@.tracks.len(),
            },
    {
        if index < self.tracks.len() {
            Some(&self.tracks[index])
        } else {
            None
        }
    }

    /// The timeline's tracks, in order.
    pub fn iter_tracks(&self) -> (r: &Vec<Track>)
        ensures
            r@.len() == self@.tracks.len(),
            forall|i: int| 0 <= i < r@.len() ==> (#[trigger] r@[i])@ == self@.tracks[i],
    {
        &self.tracks
    }

    /// Place a segment by first fit: each track is tried in order, and the
    /// segment lands in the first one whose safe insertion accepts it, at
    /// its sorted position there. When every track rejects the segment, a
    /// fresh track holding just the segment joins the end of the timeline.
    pub fn add_item(&mut self, item: Item)
        requires
            item@.fits(),
        ensures
            final(self)@.metadata == old(self)@.metadata,
            final(self)@.tracks.len() >= 1,
            match first_fit(old(self)@.tracks, item@) {
                Some(j) => {
                    &&& final(self)@.tracks.len() == old(self)@.tracks.len()
                    &&& forall|k: int|
                        0 <= k < old(self)@.tracks.len() && k != j ==> final(self)@.tracks[k] == old(
                            self,
                        )@.tracks[k]
                    &&& final(self)@.tracks[j].items == old(self)@.tracks[j].items.insert(
                        insert_point(old(self)@.tracks[j], item@.start),
                        item@,
                    )
                    &&& final(self)@.tracks[j].end_cache == extended_cache(
                        old(self)@.tracks[j].end_cache,
                        item@,
                    )
                    &&& final(self)@.tracks[j].metadata == old(self)@.tracks[j].metadata
                },
                None => {
                    &&& final(self)@.tracks.len() == old(self)@.tracks.len() + 1
                    &&& forall|k: int|
                        0 <= k < old(self)@.tracks.len() ==> final(self)@.tracks[k] == old(
                            self,
                        )@.tracks[k]
                    &&& final(self)@.tracks.last() == (TrackModel {
                        items: seq![item@],
                        end_cache: None::<int>,
                        metadata: Map::<Seq<char>, ValueModel>::empty(),
                    })
                },
            },
    {
        proof {
            use_type_invariant(&*self);
        }
        let ghost old_tracks = self@.tracks;
        let mut tracks: Vec<Track> = Vec::new();
        tracks.push(Track::new());
        std::mem::swap(&mut tracks, &mut self.tracks);
        let n: usize = tracks.len();
        let mut i: usize = 0;
        let mut inserted = false;
        while i < n && !inserted
            invariant
                n == tracks@.len(),
                n == old_tracks.len(),
                0 <= i <= n,
                item@.fits(),
                if inserted {
                    &&& i >= 1
                    &&& first_fit(old_tracks, item@) == Some(i - 1 as int)
                    &&& forall|k: int|
                        0 <= k < n && k != i - 1 ==> (#[trigger] tracks@[k])@ == old_tracks[k]
                    &&& tracks@[i - 1]@.items == old_tracks[i - 1].items.insert(
                        insert_point(old_tracks[i - 1], item@.start),
                        item@,
                    )
                    &&& tracks@[i - 1]@.end_cache == extended_cache(
                        old_tracks[i - 1].end_cache,
                        item@,
                    )
                    &&& tracks@[i - 1]@.metadata == old_tracks[i - 1].metadata
                } else {
                    &&& forall|k: int| 0 <= k < n ==> (#[trigger] tracks@[k])@ == old_tracks[k]
                    &&& first_fit(old_tracks, item@) == first_fit_from(old_tracks, item@, i as int)
                },
            decreases n - i,
        {
            let r = tracks[i].try_add_item(&item);
            match r {
                Ok(_) => {
                    inserted = true;
                },
                Err(_) => {},
            }
            i = i + 1;
        }
        if !inserted {
            let mut track = Track::new();
            track.force_push_item(item);
            proof {
                assert(track@.items =~= seq![item@]);
            }
            let ghost before = tracks@.map_values(|t: Track| t@);
            tracks.push(track);
            proof {
                assert(tracks@.map_values(|t: Track| t@) =~= before.push(
                    tracks@[tracks@.len() - 1]@,
                ));
            }
        }
        self.tracks = tracks;
    }
}

impl Default for Timeline {
    /// A timeline holding one empty track and no metadata.
    fn default() -> (r: Timeline)
        ensures
            r@.tracks == seq![empty_track()],
            r@.metadata == Map::<Seq<char>, ValueModel>::empty(),
    {
        Timeline::new()
    }
}

impl MetadataSupport for Timeline {
    open spec fn metadata(&self) -> Map<Seq<char>, ValueModel> {
        self@.metadata
    }

    /// Read the metadata value under `key`.
    fn get_metadata(&self, key: &str) -> (r: Option<Value>) {
        self.metadata.get(key)
    }

    /// Store `value` under `key`; the tracks stay as they are.
    fn set_metadata(&mut self, key: &str, value: Value)
        ensures
            final(self)@.tracks == old(self)@.tracks,
    {
        proof {
            use_type_invariant(&*self);
        }
        let mut md = DataBox::new();
        std::mem::swap(&mut md, &mut self.metadata);
        md.set(key, value);
        self.metadata = md;
    }

    /// Drop the metadata under `key`; the tracks stay as they are.
    fn erase_metadata(&mut self, key: &str)
        ensures
            final(self)@.tracks == old(self)@.tracks,
    {
        proof {
            use_type_invariant(&*self);
        }
        let mut md = DataBox::new();
        std::mem::swap(&mut md, &mut self.metadata);
        md.erase(key);
        self.metadata = md;
    }

    /// Drop all metadata; the tracks stay as they are.
    fn clear_metadata(&mut self)
        ensures
            final(self)@.tracks == old(self)@.tracks,
    {
        proof {
            use_type_invariant(&*self);
        }
        let mut md = DataBox::new();
        std::mem::swap(&mut md, &mut self.metadata);
        md.clear();
        self.metadata = md;
    }
}

} // verus!
