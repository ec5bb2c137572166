//! A track: an ordered sequence of segments with collision-checked
//! insertion, binary-search placement, and a cached track extent.

use vstd::multiset::Multiset;
use vstd::prelude::*;

use crate::base::data_box::DataBox;
use crate::base::data_box::Value;
use crate::base::data_box::ValueModel;
use crate::base::metadata_support::MetadataSupport;
use crate::base::time::Time;
use crate::timeline::item::Item;
use crate::timeline::item::ItemModel;
use crate::timeline::timerange_trait::ranges_overlap_ms;
use crate::timeline::timerange_trait::TimeRangeTrait;

verus! {

/// The error returned when an index lies outside a container.
#[derive(Debug, Clone, Copy, PartialEq, Eq, Structural)]
pub struct BoundsError;

/// The mathematical shape of a track: its segments in order, the cached
/// extent, and its metadata.
pub ghost struct TrackModel {
    pub items: Seq<ItemModel>,
    pub end_cache: Option<int>,
    pub metadata: Map<Seq<char>, ValueModel>,
}

/// Whether the segments are sorted by start time.
pub open spec fn items_sorted(items: Seq<ItemModel>) -> bool {
    forall|i: int, j: int|
        0 <= i < j < items.len() ==> (#[trigger] items[i]).start <= (#[trigger] items[j]).start
}

/// Whether two segments overlap in time; the test is inclusive, so segments
/// that only touch at a boundary point count as overlapping.
pub open spec fn items_overlap(a: ItemModel, b: ItemModel) -> bool {
    ranges_overlap_ms(a.start, a.end(), b.start, b.end())
}

/// Whether no two segments overlap.
pub open spec fn items_non_overlapping(items: Seq<ItemModel>) -> bool {
    forall|i: int, j: int|
        0 <= i < j < items.len() ==> !items_overlap(#[trigger] items[i], #[trigger] items[j])
}

/// Whether every segment's start plus duration stays within the millisecond
/// domain.
pub open spec fn items_fit(items: Seq<ItemModel>) -> bool {
    forall|i: int| 0 <= i < items.len() ==> (#[trigger] items[i]).fits()
}

/// Whether every segment has a nonnegative duration.
pub open spec fn items_proper(items: Seq<ItemModel>) -> bool {
    forall|i: int| 0 <= i < items.len() ==> 0 <= (#[trigger] items[i]).duration
}

/// The extent of a list of segments: the greatest end time over the list, or
/// zero when the list is empty or ends only in the past.
pub open spec fn track_extent(items: Seq<ItemModel>) -> int
    decreases items.len(),
{
    if items.len() == 0 {
        0
    } else {
        let rest = track_extent(items.drop_last());
        if items.last().end() > rest {
            items.last().end()
        } else {
            rest
        }
    }
}

/// Whether a cached extent value agrees with the segments it summarizes.
pub open spec fn cache_ok(track: TrackModel) -> bool {
    match track.end_cache {
        Some(c) => c == track_extent(track.items),
        None => true,
    }
}

/// The cached extent after a segment joins the track: a known cache extends
/// to cover the segment's end; an unknown cache stays unknown.
pub open spec fn extended_cache(cache: Option<int>, item: ItemModel) -> Option<int> {
    match cache {
        Some(c) => Some(
            if item.end() > c {
                item.end()
            } else {
                c
            },
        ),
        None => None,
    }
}

/// The index a binary search by start time lands on within `[lo, hi)`.
pub open spec fn bsearch_ms(items: Seq<ItemModel>, t: int, lo: int, hi: int) -> int
    recommends
        0 <= lo <= hi <= items.len(),
    decreases hi - lo,
{
    if lo >= hi {
        lo
    } else {
        let mid = lo + (hi - lo) / 2;
        if items[mid].start < t {
            bsearch_ms(items, t, mid + 1, hi)
        } else if t < items[mid].start {
            bsearch_ms(items, t, lo, mid)
        } else {
            mid
        }
    }
}

/// The insert point of a segment that starts at `t`: zero in an empty track;
/// the track's length when the cached extent lies strictly before `t`; the
/// binary-search index otherwise.
pub open spec fn insert_point(track: TrackModel, t: int) -> int {
    if track.items.len() == 0 {
        0
    } else if track.end_cache is Some && track.end_cache->Some_0 < t {
        track.items.len() as int
    } else {
        bsearch_ms(track.items, t, 0, track.items.len() as int)
    }
}

/// Whether inserting a segment at `index` is safe: the segment overlaps
/// neither the entry before the index nor the entry at it. An index beyond
/// the track is read as its length, so only the last entry is checked there.
pub open spec fn check_point(items: Seq<ItemModel>, index: int, item: ItemModel) -> bool {
    let k = if index > items.len() {
        items.len() as int
    } else {
        index
    };
    &&& (k == 0 || !items_overlap(items[k - 1], item))
    &&& (k == items.len() || !items_overlap(items[k], item))
}

/// The binary-search index lies within the searched range.
proof fn lemma_bsearch_bounds(items: Seq<ItemModel>, t: int, lo: int, hi: int)
    requires
        0 <= lo <= hi <= items.len(),
    ensures
        lo <= bsearch_ms(items, t, lo, hi) <= hi,
    decreases hi - lo,
{
    if lo < hi {
        let mid = lo + (hi - lo) / 2;
        if items[mid].start < t {
            lemma_bsearch_bounds(items, t, mid + 1, hi);
        } else if t < items[mid].start {
            lemma_bsearch_bounds(items, t, lo, mid);
        }
    }
}

/// In a sorted list, every entry before the binary-search index starts at or
/// before `t`, and every entry from it on starts at or after `t`.
proof fn lemma_bsearch_position(items: Seq<ItemModel>, t: int, lo: int, hi: int)
    requires
        items_sorted(items),
        0 <= lo <= hi <= items.len(),
    ensures
        lo <= bsearch_ms(items, t, lo, hi) <= hi,
        forall|i: int|
            lo <= i < bsearch_ms(items, t, lo, hi) ==> (#[trigger] items[i]).start <= t,
        forall|i: int|
            bsearch_ms(items, t, lo, hi) <= i < hi ==> t <= (#[trigger] items[i]).start,
    decreases hi - lo,
{
    if lo < hi {
        let mid = lo + (hi - lo) / 2;
        if items[mid].start < t {
            lemma_bsearch_position(items, t, mid + 1, hi);
        } else if t < items[mid].start {
            lemma_bsearch_position(items, t, lo, mid);
        }
    }
}

/// What the extent of a list of segments is: nonnegative, at or above every
/// end time, and either zero or some segment's end time.
pub proof fn lemma_extent_bounds(items: Seq<ItemModel>)
    ensures
        0 <= track_extent(items),
        forall|i: int| 0 <= i < items.len() ==> (#[trigger] items[i]).end() <= track_extent(items),
        track_extent(items) == 0 || exists|i: int|
            0 <= i < items.len() && (#[trigger] items[i]).end() == track_extent(items),
    decreases items.len(),
{
    if items.len() > 0 {
        let pre = items.drop_last();
        assert(forall|i: int| 0 <= i < pre.len() ==> #[trigger] pre[i] == items[i]);
        lemma_extent_bounds(pre);
        assert forall|i: int| 0 <= i < items.len() implies (#[trigger] items[i]).end()
            <= track_extent(items) by {
            if i < items.len() - 1 {
                assert(items[i] == pre[i]);
                assert(pre[i].end() <= track_extent(pre));
            }
        }
        if track_extent(items) != 0 {
            if items.last().end() > track_extent(pre) {
                assert(items[items.len() - 1].end() == track_extent(items));
            } else {
                let i = choose|i: int|
                    0 <= i < pre.len() && (#[trigger] pre[i]).end() == track_extent(pre);
                assert(items[i].end() == track_extent(items));
            }
        }
    }
}

/// Inserting a segment anywhere raises the extent exactly to cover its end.
proof fn lemma_extent_insert(items: Seq<ItemModel>, p: int, item: ItemModel)
    requires
        0 <= p <= items.len(),
    ensures
        track_extent(items.insert(p, item)) == (
        if item.end() > track_extent(items) {
            item.end()
        } else {
            track_extent(items)
        }),
    decreases items.len(),
{
    let grown = items.insert(p, item);
    if p == items.len() {
        assert(grown.drop_last() =~= items);
        assert(grown.last() == item);
    } else {
        assert(grown.drop_last() =~= items.drop_last().insert(p, item));
        assert(grown.last() == items.last());
        lemma_extent_insert(items.drop_last(), p, item);
    }
}

/// A track: segments in time order (when reached through the safe
/// insertion), with a cached extent and a metadata store.
///
/// The safe insertion keeps the segments sorted by start time and free of
/// overlap. The forced insertions keep only the positions the caller asks
/// for; after them the safe guarantees hold again once the track is sorted
/// and collision-free.
#[derive(Debug)]
pub struct Track {
    items: Vec<Item>,
    metadata: DataBox,
    end_cache: Option<Time>,
}

impl View for Track {
    type V = TrackModel;

    closed spec fn view(&self) -> TrackModel {
        TrackModel {
            items: self.items@.map_values(|it: Item| it@),
            end_cache: match self.end_cache {
                Some(t) => Some(t@),
                None => None,
            },
            metadata: self.metadata@,
        }
    }
}

impl Track {
    #[verifier::type_invariant]
    spec fn wf(&self) -> bool {
        &&& items_fit(self@.items)
        &&& cache_ok(self@)
    }

    /// An empty track with no cached extent and no metadata.
    pub fn new() -> (r: Track)
        ensures
            r@ == (TrackModel {
                items: Seq::<ItemModel>::empty(),
                end_cache: None::<int>,
                metadata: Map::<Seq<char>, ValueModel>::empty(),
            }),
    {
        let r = Track { items: Vec::new(), metadata: DataBox::new(), end_cache: None };
        proof {
            assert(r@.items =~= Seq::<ItemModel>::empty());
        }
        r
    }

    /// How many segments the track holds.
    pub fn len(&self) -> (r: usize)
        ensures
            r == self@.items.len(),
    {
        self.items.len()
    }

    /// Whether the track holds no segment.
    pub fn is_empty(&self) -> (r: bool)
        ensures
            r == (self@.items.len() == 0),
    {
        self.items.is_empty()
    }

    /// Read the segment at `index`, if there is one.
    pub fn get(&self, index: usize) -> (r: Option<&Item>)
        ensures
            match r {
                Some(item) => index < self@.items.len() && item@ == self@.items[index as int],
                None => index >= self@.items.len(),
            },
    {
        if index < self.items.len() {
            Some(&self.items[index])
        } else {
            None
        }
    }

    /// The track's segments, in their stored order.
    pub fn iter_items(&self) -> (r: &Vec<Item>)
        ensures
            r@.len() == self@.items.len(),
            forall|i: int| 0 <= i < r@.len() ==> (#[trigger] r@[i])@ == self@.items[i],
    {
        &self.items
    }

    /// The index at which a segment would go to keep the track sorted by
    /// start time: zero in an empty track; the track's length, without a
    /// scan, when the cached extent lies strictly before the segment's
    /// start; the binary-search index otherwise.
    pub fn find_insert_point(&self, item: &Item) -> (r: usize)
        ensures
            r as int == insert_point(self@, item@.start),
            r <= self@.items.len(),
            cache_ok(self@),
    {
        proof {
            use_type_invariant(&*self);
        }
        let n: usize = self.items.len();
        if n == 0 {
            return 0;
        }
        let t: i128 = item.start().to_millisecond();
        let fast: bool = match &self.end_cache {
            Some(c) => c.to_millisecond() < t,
            None => false,
        };
        proof {
            assert(fast == (self@.end_cache is Some && self@.end_cache->Some_0 < t as int));
        }
        if fast {
            return n;
        }
        let ghost model = self@;
        let mut lo: usize = 0;
        let mut hi: usize = n;
        proof {
            assert(forall|i: int|
                0 <= i < n ==> (#[trigger] model.items[i]).start == self.items@[i]@.start);
        }
        while lo < hi
            invariant
                0 < n,
                0 <= lo <= hi <= n,
                n == model.items.len(),
                model == self@,
                cache_ok(model),
                t == item@.start,
                !(model.end_cache is Some && model.end_cache->Some_0 < t as int),
                forall|i: int| 0 <= i < n ==> (#[trigger] model.items[i]) == self.items@[i]@,
                bsearch_ms(model.items, t as int, lo as int, hi as int) == bsearch_ms(
                    model.items,
                    t as int,
                    0,
                    n as int,
                ),
            decreases hi - lo,
        {
            let mid: usize = lo + (hi - lo) / 2;
            let ms: i128 = self.items[mid].start().to_millisecond();
            if ms < t {
                lo = mid + 1;
            } else if t < ms {
                hi = mid;
            } else {
                proof {
                    assert(model.items[mid as int].start == t as int);
                    assert(bsearch_ms(model.items, t as int, lo as int, hi as int) == mid as int);
                }
                return mid;
            }
        }
        proof {
            lemma_bsearch_bounds(model.items, t as int, lo as int, hi as int);
        }
        lo
    }

    /// Whether inserting a segment at `index` preserves the no-overlap rule:
    /// the segment must overlap neither the entry just before the index nor
    /// the entry at it. An index beyond the track is read as its length.
    pub fn check_insert_point(&self, index: usize, item: &Item) -> (r: bool)
        requires
            item@.fits(),
        ensures
            r == check_point(self@.items, index as int, item@),
    {
        proof {
            use_type_invariant(&*self);
        }
        let n: usize = self.items.len();
        let k: usize = if index > n {
            n
        } else {
            index
        };
        if k >= 1 {
            proof {
                assert(self@.items[k as int - 1].fits());
            }
            if self.items[k - 1].overlaps(item) {
                return false;
            }
        }
        if k < n {
            proof {
                assert(self@.items[k as int].fits());
            }
            if self.items[k].overlaps(item) {
                return false;
            }
        }
        true
    }
}

/// The clamped index a forced insert really uses: zero in an empty track,
/// the length when the index lies beyond it, the index itself otherwise.
pub open spec fn clamp_index(len: int, index: int) -> int {
    if len == 0 {
        0
    } else if index >= len {
        len
    } else {
        index
    }
}

impl Track {
    /// The end of a segment, in milliseconds.
    fn item_end(item: &Item) -> (r: i128)
        requires
            item@.fits(),
        ensures
            r as int == item@.end(),
    {
        item.start().to_millisecond() + item.duration().to_millisecond()
    }

    /// The cached extent after a segment joins the track.
    fn extend_cache(cache: &Option<Time>, item: &Item) -> (r: Option<Time>)
        requires
            item@.fits(),
        ensures
            match r {
                Some(t) => extended_cache(
                    match *cache {
                        Some(c) => Some(c@),
                        None => None,
                    },
                    item@,
                ) == Some(t@),
                None => cache is None,
            },
    {
        match cache {
            Some(c) => {
                let e: i128 = Track::item_end(item);
                if e > c.to_millisecond() {
                    Some(Time::new(e))
                } else {
                    Some(*c)
                }
            },
            None => None,
        }
    }

    /// Append a segment at the end, without looking for a sorted position or
    /// checking for overlap. A known cached extent grows to cover it.
    pub fn force_push_item(&mut self, item: Item)
        requires
            item@.fits(),
        ensures
            final(self)@.items == old(self)@.items.push(item@),
            final(self)@.end_cache == extended_cache(old(self)@.end_cache, item@),
            final(self)@.metadata == old(self)@.metadata,
    {
        proof {
            use_type_invariant(&*self);
        }
        let ghost old_model = self@;
        let new_cache = Track::extend_cache(&self.end_cache, &item);
        self.end_cache = None;
        let mut items: Vec<Item> = Vec::new();
        std::mem::swap(&mut items, &mut self.items);
        let ghost item_model = item@;
        items.push(item);
        proof {
            assert(items@.map_values(|it: Item| it@) =~= old_model.items.push(item_model));
        }
        self.items = items;
        proof {
            assert(old_model.items.push(item_model).drop_last() =~= old_model.items);
        }
        self.end_cache = new_cache;
    }

    /// Insert a segment at a caller-chosen index, clamped into the track,
    /// without checking for order or overlap. The result carries the index
    /// used: an error when the requested index had to be adjusted.
    pub fn force_insert_item(&mut self, index: usize, item: Item) -> (r: Result<usize, usize>)
        requires
            item@.fits(),
        ensures
            final(self)@.items == old(self)@.items.insert(
                clamp_index(old(self)@.items.len() as int, index as int),
                item@,
            ),
            final(self)@.end_cache == extended_cache(old(self)@.end_cache, item@),
            final(self)@.metadata == old(self)@.metadata,
            match r {
                Ok(i) => i == index && clamp_index(old(self)@.items.len() as int, index as int)
                    == index as int,
                Err(i) => i as int == clamp_index(old(self)@.items.len() as int, index as int)
                    && i != index,
            },
    {
        proof {
            use_type_invariant(&*self);
        }
        let ghost old_model = self@;
        let n: usize = self.items.len();
        let insert_pos: usize = if n == 0 {
            0
        } else if index >= n {
            n
        } else {
            index
        };
        let new_cache = Track::extend_cache(&self.end_cache, &item);
        self.end_cache = None;
        let mut items: Vec<Item> = Vec::new();
        std::mem::swap(&mut items, &mut self.items);
        let ghost item_model = item@;
        items.insert(insert_pos, item);
        proof {
            assert(items@.map_values(|it: Item| it@) =~= old_model.items.insert(
                insert_pos as int,
                item_model,
            ));
        }
        self.items = items;
        proof {
            lemma_extent_insert(old_model.items, insert_pos as int, item_model);
        }
        self.end_cache = new_cache;
        if insert_pos == index {
            Ok(insert_pos)
        } else {
            Err(insert_pos)
        }
    }

    /// Insert a segment at its sorted position, without checking for
    /// overlap, and return the index it landed on. A known cached extent
    /// grows to cover it.
    pub fn force_add_item(&mut self, item: Item) -> (r: usize)
        requires
            item@.fits(),
        ensures
            r as int == insert_point(old(self)@, item@.start),
            final(self)@.items == old(self)@.items.insert(r as int, item@),
            final(self)@.end_cache == extended_cache(old(self)@.end_cache, item@),
            final(self)@.metadata == old(self)@.metadata,
            cache_ok(old(self)@),
    {
        proof {
            use_type_invariant(&*self);
        }
        let ghost old_model = self@;
        let insert_pos: usize = self.find_insert_point(&item);
        let new_cache = Track::extend_cache(&self.end_cache, &item);
        self.end_cache = None;
        let mut items: Vec<Item> = Vec::new();
        std::mem::swap(&mut items, &mut self.items);
        let ghost item_model = item@;
        items.insert(insert_pos, item);
        proof {
            assert(items@.map_values(|it: Item| it@) =~= old_model.items.insert(
                insert_pos as int,
                item_model,
            ));
        }
        self.items = items;
        proof {
            lemma_extent_insert(old_model.items, insert_pos as int, item_model);
        }
        self.end_cache = new_cache;
        insert_pos
    }

    /// Try to insert a segment safely: at its sorted position, and only when
    /// it overlaps no neighbour there. On success the index it landed on
    /// comes back and a known cached extent grows to cover it; on rejection
    /// the index where the conflict lies comes back and nothing changes.
    pub fn try_add_item(&mut self, item: &Item) -> (r: Result<usize, usize>)
        requires
            item@.fits(),
        ensures
            match r {
                Ok(idx) => {
                    &&& idx as int == insert_point(old(self)@, item@.start)
                    &&& check_point(old(self)@.items, idx as int, item@)
                    &&& final(self)@.items == old(self)@.items.insert(idx as int, item@)
                    &&& final(self)@.end_cache == extended_cache(old(self)@.end_cache, item@)
                    &&& final(self)@.metadata == old(self)@.metadata
                },
                Err(idx) => {
                    &&& idx as int == insert_point(old(self)@, item@.start)
                    &&& !check_point(old(self)@.items, idx as int, item@)
                    &&& final(self)@ == old(self)@
                },
            },
            cache_ok(old(self)@),
    {
        proof {
            use_type_invariant(&*self);
        }
        let ghost old_model = self@;
        let insert_pos: usize = self.find_insert_point(item);
        let safe: bool = self.check_insert_point(insert_pos, item);
        if !safe {
            return Err(insert_pos);
        }
        let new_cache = Track::extend_cache(&self.end_cache, item);
        self.end_cache = None;
        let mut items: Vec<Item> = Vec::new();
        std::mem::swap(&mut items, &mut self.items);
        let cloned = item.clone();
        items.insert(insert_pos, cloned);
        proof {
            assert(items@.map_values(|it: Item| it@) =~= old_model.items.insert(
                insert_pos as int,
                item@,
            ));
        }
        self.items = items;
        proof {
            lemma_extent_insert(old_model.items, insert_pos as int, item@);
        }
        self.end_cache = new_cache;
        Ok(insert_pos)
    }

    /// Remove and return the segment at `index`; the cached extent is
    /// forgotten. An index outside the track is an error, and nothing
    /// changes.
    pub fn take_at(&mut self, index: usize) -> (r: Result<Item, BoundsError>)
        ensures
            match r {
                Ok(item) => {
                    &&& index < old(self)@.items.len()
                    &&& item@ == old(self)@.items[index as int]
                    &&& final(self)@.items == old(self)@.items.remove(index as int)
                    &&& final(self)@.end_cache is None
                    &&& final(self)@.metadata == old(self)@.metadata
                },
                Err(_) => {
                    &&& index >= old(self)@.items.len()
                    &&& final(self)@ == old(self)@
                },
            },
    {
        proof {
            use_type_invariant(&*self);
        }
        if index >= self.items.len() {
            return Err(BoundsError);
        }
        let ghost old_model = self@;
        self.end_cache = None;
        let mut items: Vec<Item> = Vec::new();
        std::mem::swap(&mut items, &mut self.items);
        let item = items.remove(index);
        proof {
            assert(items@.map_values(|it: Item| it@) =~= old_model.items.remove(index as int));
        }
        self.items = items;
        Ok(item)
    }
}

/// The insert point of a sorted track whose segments have nonnegative
/// durations splits it around the new start time: everything before the
/// point starts at or before it, everything from the point on starts at or
/// after it.
pub proof fn lemma_insert_point_splits(track: TrackModel, t: int)
    requires
        items_sorted(track.items),
        items_proper(track.items),
        cache_ok(track),
    ensures
        0 <= insert_point(track, t) <= track.items.len(),
        forall|i: int|
            0 <= i < insert_point(track, t) ==> (#[trigger] track.items[i]).start <= t,
        forall|i: int|
            insert_point(track, t) <= i < track.items.len() ==> t <= (
            #[trigger] track.items[i]).start,
{
    let items = track.items;
    if items.len() == 0 {
    } else if track.end_cache is Some && track.end_cache->Some_0 < t {
        lemma_extent_bounds(items);
        assert forall|i: int| 0 <= i < items.len() implies (#[trigger] items[i]).start <= t by {
            assert(items[i].end() <= track_extent(items));
            assert(0 <= items[i].duration);
        }
    } else {
        lemma_bsearch_position(items, t, 0, items.len() as int);
    }
}

/// Sort law: a segment inserted at its computed insert point keeps a sorted
/// track sorted. The safe and the sorted forced insertions place a segment
/// exactly this way, so a track built from them alone stays sorted by start
/// time after every step.
pub proof fn lemma_safe_insert_preserves_sorted(track: TrackModel, item: ItemModel, p: int)
    requires
        items_sorted(track.items),
        items_proper(track.items),
        cache_ok(track),
        p == insert_point(track, item.start),
    ensures
        items_sorted(track.items.insert(p, item)),
{
    lemma_insert_point_splits(track, item.start);
    let items = track.items;
    let grown = items.insert(p, item);
    assert(forall|j: int|
        0 <= j < grown.len() ==> #[trigger] grown[j] == (
        if j < p {
            items[j]
        } else if j == p {
            item
        } else {
            items[j - 1]
        }));
    assert forall|a: int, b: int|
        0 <= a < b < grown.len() implies (#[trigger] grown[a]).start <= (
    #[trigger] grown[b]).start by {
        if a < p && b < p {
            assert(items[a].start <= items[b].start);
        } else if a < p && b == p {
            assert(items[a].start <= item.start);
        } else if a < p && b > p {
            assert(items[a].start <= items[b - 1].start);
        } else if a == p && b > p {
            assert(item.start <= items[b - 1].start);
        } else if a > p && b > p {
            assert(items[a - 1].start <= items[b - 1].start);
        }
    }
}

/// No-overlap law: a segment with nonnegative duration, inserted at its
/// computed insert point after the neighbour check accepted it, overlaps
/// nothing in a sorted, collision-free track of segments with nonnegative
/// durations. The safe insertion places a segment exactly this way, so a
/// track built from it alone stays free of overlap after every step.
pub proof fn lemma_safe_insert_preserves_no_overlap(track: TrackModel, item: ItemModel, p: int)
    requires
        items_sorted(track.items),
        items_non_overlapping(track.items),
        items_proper(track.items),
        0 <= item.duration,
        cache_ok(track),
        p == insert_point(track, item.start),
        check_point(track.items, p, item),
    ensures
        items_non_overlapping(track.items.insert(p, item)),
{
    lemma_insert_point_splits(track, item.start);
    let items = track.items;
    let n = items.len() as int;
    let t = item.start;
    assert forall|k: int| 0 <= k < n implies !items_overlap(#[trigger] items[k], item) by {
        assert(0 <= items[k].duration);
        if track.end_cache is Some && track.end_cache->Some_0 < t && items.len() != 0 {
            lemma_extent_bounds(items);
            assert(items[k].end() <= track_extent(items));
        } else {
            if k < p - 1 {
                assert(0 <= items[p - 1].duration);
                assert(items[k].start <= items[p - 1].start);
                assert(!items_overlap(items[k], items[p - 1]));
                assert(!items_overlap(items[p - 1], item));
                assert(items[p - 1].start <= t);
                assert(items[k].end() < items[p - 1].start);
            } else if k == p - 1 {
                assert(!items_overlap(items[p - 1], item));
            } else if k == p {
                assert(!items_overlap(items[p], item));
            } else {
                assert(!items_overlap(items[p], item));
                assert(0 <= items[p].duration);
                assert(t <= items[p].start);
                assert(items[p].start <= items[k].start);
                assert(item.end() < items[p].start);
            }
        }
    }
    let grown = items.insert(p, item);
    assert(forall|j: int|
        0 <= j < grown.len() ==> #[trigger] grown[j] == (
        if j < p {
            items[j]
        } else if j == p {
            item
        } else {
            items[j - 1]
        }));
    assert forall|a: int, b: int|
        0 <= a < b < grown.len() implies !items_overlap(#[trigger] grown[a], #[trigger] grown[b]) by {
        if a < p && b < p {
            assert(!items_overlap(items[a], items[b]));
        } else if a < p && b == p {
            assert(!items_overlap(items[a], item));
        } else if a < p && b > p {
            assert(!items_overlap(items[a], items[b - 1]));
        } else if a == p && b > p {
            assert(!items_overlap(items[b - 1], item));
        } else if a > p && b > p {
            assert(!items_overlap(items[a - 1], items[b - 1]));
        }
    }
}

/// The index of the first segment that starts strictly after `t`, or the
/// list's length when none does.
pub open spec fn upper_bound(items: Seq<ItemModel>, t: int) -> int
    decreases items.len(),
{
    if items.len() == 0 {
        0
    } else if items[0].start > t {
        0
    } else {
        1 + upper_bound(items.drop_first(), t)
    }
}

/// The segments in stable sorted order: each segment, in turn, goes in after
/// every already-placed segment that does not start after it, so segments
/// with equal starts keep their relative order.
pub open spec fn stable_sorted(items: Seq<ItemModel>) -> Seq<ItemModel>
    decreases items.len(),
{
    if items.len() == 0 {
        Seq::<ItemModel>::empty()
    } else {
        let sorted_prefix = stable_sorted(items.drop_last());
        sorted_prefix.insert(upper_bound(sorted_prefix, items.last().start), items.last())
    }
}

/// What the first-after index is: everything before it starts at or before
/// `t`, and the entry at it, when there is one, starts after `t`.
proof fn lemma_upper_bound_characterize(items: Seq<ItemModel>, t: int)
    ensures
        0 <= upper_bound(items, t) <= items.len(),
        forall|j: int| 0 <= j < upper_bound(items, t) ==> (#[trigger] items[j]).start <= t,
        upper_bound(items, t) < items.len() ==> items[upper_bound(items, t)].start > t,
    decreases items.len(),
{
    if items.len() > 0 && !(items[0].start > t) {
        let rest = items.drop_first();
        lemma_upper_bound_characterize(rest, t);
        assert(forall|j: int| 0 <= j < rest.len() ==> #[trigger] rest[j] == items[j + 1]);
        assert forall|j: int| 0 <= j < upper_bound(items, t) implies (#[trigger] items[j]).start
            <= t by {
            if j > 0 {
                assert(rest[j - 1].start <= t);
            }
        }
    }
}

/// Stable sorting keeps exactly the same segments: the result is a sorted
/// permutation, and segments that fit the millisecond domain still do.
pub proof fn lemma_stable_sorted_permutes(items: Seq<ItemModel>)
    ensures
        stable_sorted(items).to_multiset() == items.to_multiset(),
        items_sorted(stable_sorted(items)),
        items_fit(items) ==> items_fit(stable_sorted(items)),
    decreases items.len(),
{
    broadcast use vstd::seq_lib::group_to_multiset_ensures;

    if items.len() > 0 {
        let pre = items.drop_last();
        let last = items.last();
        lemma_stable_sorted_permutes(pre);
        let sorted_prefix = stable_sorted(pre);
        let ub = upper_bound(sorted_prefix, last.start);
        lemma_upper_bound_characterize(sorted_prefix, last.start);
        let grown = sorted_prefix.insert(ub, last);
        lemma_to_multiset_insert(sorted_prefix, ub, last);
        assert(items =~= pre.push(last));
        assert(items.to_multiset() =~= pre.to_multiset().insert(last));
        assert(forall|j: int|
            0 <= j < grown.len() ==> #[trigger] grown[j] == (
            if j < ub {
                sorted_prefix[j]
            } else if j == ub {
                last
            } else {
                sorted_prefix[j - 1]
            }));
        assert forall|a: int, b: int|
            0 <= a < b < grown.len() implies (#[trigger] grown[a]).start <= (
        #[trigger] grown[b]).start by {
            if a < ub && b < ub {
                assert(sorted_prefix[a].start <= sorted_prefix[b].start);
            } else if a < ub && b == ub {
                assert(sorted_prefix[a].start <= last.start);
            } else if a < ub && b > ub {
                assert(sorted_prefix[a].start <= sorted_prefix[b - 1].start);
            } else if a == ub && b > ub {
                assert(sorted_prefix[ub].start > last.start || ub == sorted_prefix.len());
                assert(sorted_prefix[ub].start <= sorted_prefix[b - 1].start || ub == b - 1);
            } else if a > ub && b > ub {
                assert(sorted_prefix[a - 1].start <= sorted_prefix[b - 1].start);
            }
        }
        if items_fit(items) {
            assert(forall|j: int| 0 <= j < pre.len() ==> #[trigger] pre[j] == items[j]);
            assert(items_fit(pre));
        }
    }
}

/// Inserting an element anywhere in a list adds exactly one of it to the
/// list's multiset.
proof fn lemma_to_multiset_insert(s: Seq<ItemModel>, k: int, a: ItemModel)
    requires
        0 <= k <= s.len(),
    ensures
        s.insert(k, a).to_multiset() == s.to_multiset().insert(a),
{
    broadcast use vstd::seq_lib::group_to_multiset_ensures;

    let grown = s.insert(k, a);
    assert(grown.remove(k) =~= s);
    assert(grown.remove(k).to_multiset() =~= grown.to_multiset().remove(grown[k]));
    assert(grown.contains(a));
    assert(grown.to_multiset().count(a) > 0);
    assert(s.to_multiset().insert(a) =~= grown.to_multiset().remove(a).insert(a));
    assert(grown.to_multiset().remove(a).insert(a) =~= grown.to_multiset());
}

impl Track {
    /// Re-sort the segments by start time and recompute the cached extent.
    /// The same segments remain, in stable sorted order: segments with equal
    /// starts keep their relative order.
    pub fn force_sort_items(&mut self)
        ensures
            final(self)@.items == stable_sorted(old(self)@.items),
            final(self)@.items.to_multiset() == old(self)@.items.to_multiset(),
            items_sorted(final(self)@.items),
            final(self)@.end_cache == Some(track_extent(final(self)@.items)),
            final(self)@.metadata == old(self)@.metadata,
    {
        proof {
            use_type_invariant(&*self);
        }
        let ghost old_items = self@.items;
        self.end_cache = None;
        let mut items: Vec<Item> = Vec::new();
        std::mem::swap(&mut items, &mut self.items);
        let mut sorted_items: Vec<Item> = Vec::new();
        proof {
            assert(items@.map_values(|it: Item| it@) =~= old_items);
            assert(old_items.skip(0) =~= old_items);
            assert(sorted_items@.map_values(|it: Item| it@) =~= Seq::<ItemModel>::empty());
            assert(old_items.take(0) =~= Seq::<ItemModel>::empty());
        }
        let total: usize = items.len();
        let mut processed: usize = 0;
        while processed < total
            invariant
                total == old_items.len(),
                0 <= processed <= total,
                items@.map_values(|it: Item| it@) == old_items.skip(processed as int),
                items_fit(old_items),
                items_fit(sorted_items@.map_values(|it: Item| it@)),
                items_sorted(sorted_items@.map_values(|it: Item| it@)),
                sorted_items@.map_values(|it: Item| it@) == stable_sorted(
                    old_items.take(processed as int),
                ),
            decreases total - processed,
        {
            let ghost source_before = items@.map_values(|it: Item| it@);
            let ghost sorted_before = sorted_items@.map_values(|it: Item| it@);
            proof {
                assert(source_before.len() == items@.len());
                assert(old_items.skip(processed as int).len() == total - processed);
                assert(old_items.skip(processed as int)[0] == old_items[processed as int]);
            }
            let item = items.remove(0);
            proof {
                assert(item@ == old_items[processed as int]);
                assert(items@.map_values(|it: Item| it@) =~= source_before.remove(0));
                assert forall|j: int|
                    0 <= j < source_before.remove(0).len() implies source_before.remove(0)[j]
                    == old_items.skip(processed as int + 1)[j] by {
                    assert(source_before[j + 1] == old_items.skip(processed as int)[j + 1]);
                    assert(old_items.skip(processed as int)[j + 1] == old_items[processed as int + 1
                        + j]);
                    assert(old_items.skip(processed as int + 1)[j] == old_items[processed as int + 1
                        + j]);
                }
                assert(items@.map_values(|it: Item| it@) =~= old_items.skip(processed as int + 1));
                assert(item@.fits());
            }
            let t: i128 = item.start().to_millisecond();
            let n: usize = sorted_items.len();
            let mut k: usize = 0;
            while k < n
                invariant
                    n == sorted_items@.len(),
                    0 <= k <= n,
                    t == item@.start,
                    items_fit(sorted_items@.map_values(|it: Item| it@)),
                    items_sorted(sorted_items@.map_values(|it: Item| it@)),
                    forall|j: int|
                        0 <= j < k ==> (#[trigger] sorted_items@[j])@.start <= t as int,
                ensures
                    0 <= k <= n,
                    forall|j: int|
                        0 <= j < k ==> (#[trigger] sorted_items@[j])@.start <= t as int,
                    k < n ==> sorted_items@[k as int]@.start > t as int,
                decreases n - k,
            {
                let ms: i128 = sorted_items[k].start().to_millisecond();
                if ms > t {
                    break ;
                }
                k = k + 1;
            }
            proof {
                lemma_upper_bound_characterize(sorted_before, t as int);
                let ub = upper_bound(sorted_before, t as int);
                assert(k as int == ub) by {
                    assert(forall|j: int|
                        0 <= j < sorted_before.len() ==> #[trigger] sorted_before[j]
                            == sorted_items@[j]@);
                    if (k as int) < ub {
                        assert(sorted_before[k as int].start <= t as int);
                        assert(sorted_items@[k as int]@.start > t as int);
                    }
                    if ub < k as int {
                        assert(sorted_before[ub].start > t as int);
                        assert(sorted_items@[ub]@.start <= t as int);
                    }
                }
            }
            sorted_items.insert(k, item);
            proof {
                assert(sorted_items@.map_values(|it: Item| it@) =~= sorted_before.insert(
                    k as int,
                    item@,
                ));
                assert(old_items.take(processed as int + 1).drop_last() =~= old_items.take(
                    processed as int,
                ));
                assert(old_items.take(processed as int + 1).last() == old_items[processed as int]);
                lemma_stable_sorted_permutes(old_items.take(processed as int + 1));
            }
            processed = processed + 1;
        }
        proof {
            assert(old_items.take(total as int) =~= old_items);
            lemma_stable_sorted_permutes(old_items);
        }
        self.items = sorted_items;
        let ghost new_items = self@.items;
        let n: usize = self.items.len();
        let mut acc: i128 = 0;
        let mut i: usize = 0;
        proof {
            assert(new_items.take(0) =~= Seq::<ItemModel>::empty());
        }
        while i < n
            invariant
                n == self@.items.len(),
                0 <= i <= n,
                new_items == self@.items,
                items_fit(self@.items),
                self@.end_cache is None,
                n == self.items@.len(),
                forall|kk: int| 0 <= kk < n ==> (#[trigger] self@.items[kk]) == self.items@[kk]@,
                acc as int == track_extent(self@.items.take(i as int)),
            decreases n - i,
        {
            proof {
                assert(self@.items[i as int].fits());
            }
            let e: i128 = Track::item_end(&self.items[i]);
            if e > acc {
                acc = e;
            }
            proof {
                assert(self@.items.take(i as int + 1).drop_last() =~= self@.items.take(i as int));
                assert(self@.items.take(i as int + 1).last() == self@.items[i as int]);
            }
            i = i + 1;
        }
        proof {
            assert(self@.items.take(n as int) =~= self@.items);
        }
        self.end_cache = Some(Time::new(acc));
    }
}

impl Clone for Track {
    /// A clone holds the same segments and metadata; its cached extent
    /// starts out unknown.
    fn clone(&self) -> (r: Track)
        ensures
            r@.items == self@.items,
            r@.end_cache is None,
            r@.metadata == self@.metadata,
    {
        proof {
            use_type_invariant(&*self);
        }
        let n: usize = self.items.len();
        let mut items: Vec<Item> = Vec::new();
        let mut i: usize = 0;
        while i < n
            invariant
                n == self.items@.len(),
                0 <= i <= n,
                items@.len() == i,
                forall|k: int| 0 <= k < i ==> (#[trigger] items@[k])@ == self.items@[k]@,
            decreases n - i,
        {
            let cloned = self.items[i].clone();
            items.push(cloned);
            i = i + 1;
        }
        proof {
            assert(items@.map_values(|it: Item| it@) =~= self@.items);
        }
        let r = Track { items, metadata: self.metadata.clone(), end_cache: None };
        r
    }
}

impl TimeRangeTrait for Track {
    /// A track presents itself as a zero-based span covering its content.
    open spec fn start_ms(&self) -> int {
        0
    }

    open spec fn duration_ms(&self) -> int {
        track_extent(self@.items)
    }

    fn start(&self) -> (r: Time) {
        Time::new(0)
    }

    /// The track's extent: the greatest end time over its segments, or zero
    /// when it is empty, served from the cache when one is known and
    /// recomputed by a scan otherwise. The result also witnesses that the
    /// track covers a representable span, so the range interface's domain
    /// bound holds of every track.
    fn duration(&self) -> (r: Time)
        ensures
            0 <= r@,
            self.time_fits(),
    {
        proof {
            use_type_invariant(&*self);
            lemma_extent_bounds(self@.items);
            if track_extent(self@.items) != 0 {
                let i = choose|i: int|
                    0 <= i < self@.items.len() && (#[trigger] self@.items[i]).end()
                        == track_extent(self@.items);
                assert(self@.items[i].fits());
            }
        }
        match &self.end_cache {
            Some(c) => *c,
            None => {
                let n: usize = self.items.len();
                let mut acc: i128 = 0;
                let mut i: usize = 0;
                proof {
                    assert(self@.items.take(0) =~= Seq::<ItemModel>::empty());
                }
                while i < n
                    invariant
                        n == self@.items.len(),
                        0 <= i <= n,
                        items_fit(self@.items),
                        n == self.items@.len(),
                        forall|k: int|
                            0 <= k < n ==> (#[trigger] self@.items[k]) == self.items@[k]@,
                        acc as int == track_extent(self@.items.take(i as int)),
                    decreases n - i,
                {
                    proof {
                        assert(self@.items[i as int].fits());
                    }
                    let e: i128 = Track::item_end(&self.items[i]);
                    if e > acc {
                        acc = e;
                    }
                    proof {
                        assert(self@.items.take(i as int + 1).drop_last() =~= self@.items.take(
                            i as int,
                        ));
                        assert(self@.items.take(i as int + 1).last() == self@.items[i as int]);
                    }
                    i = i + 1;
                }
                proof {
                    assert(self@.items.take(n as int) =~= self@.items);
                }
                Time::new(acc)
            },
        }
    }

    fn end(&self) -> (r: Time) {
        self.duration()
    }

    fn contains(&self, time: &Time) -> (r: bool) {
        let e: i128 = self.duration().to_millisecond();
        let t: i128 = time.to_millisecond();
        0 <= t && t <= e
    }

    fn overlaps(&self, other: &Track) -> (r: bool) {
        let e1: i128 = self.duration().to_millisecond();
        let e2: i128 = other.duration().to_millisecond();
        0 <= e2 && e1 >= 0
    }
}

impl MetadataSupport for Track {
    open spec fn metadata(&self) -> Map<Seq<char>, ValueModel> {
        self@.metadata
    }

    /// Read the metadata value under `key`.
    fn get_metadata(&self, key: &str) -> (r: Option<Value>) {
        self.metadata.get(key)
    }

    /// Store `value` under `key`; the segments and the cached extent stay as
    /// they are.
    fn set_metadata(&mut self, key: &str, value: Value)
        ensures
            final(self)@.items == old(self)@.items,
            final(self)@.end_cache == old(self)@.end_cache,
    {
        proof {
            use_type_invariant(&*self);
        }
        let mut md = DataBox::new();
        std::mem::swap(&mut md, &mut self.metadata);
        md.set(key, value);
        self.metadata = md;
    }

    /// Drop the metadata under `key`; the segments and the cached extent
    /// stay as they are.
    fn erase_metadata(&mut self, key: &str)
        ensures
            final(self)@.items == old(self)@.items,
            final(self)@.end_cache == old(self)@.end_cache,
    {
        proof {
            use_type_invariant(&*self);
        }
        let mut md = DataBox::new();
        std::mem::swap(&mut md, &mut self.metadata);
        md.erase(key);
        self.metadata = md;
    }

    /// Drop all metadata; the segments and the cached extent stay as they
    /// are.
    fn clear_metadata(&mut self)
        ensures
            final(self)@.items == old(self)@.items,
            final(self)@.end_cache == old(self)@.end_cache,
    {
        proof {
            use_type_invariant(&*self);
        }
        let mut md = DataBox::new();
        std::mem::swap(&mut md, &mut self.metadata);
        md.clear();
        self.metadata = md;
    }
}

impl Default for Track {
    /// An empty track.
    fn default() -> (r: Track)
        ensures
            r@ == (TrackModel {
                items: Seq::<ItemModel>::empty(),
                end_cache: None::<int>,
                metadata: Map::<Seq<char>, ValueModel>::empty(),
            }),
    {
        Track::new()
    }
}

} // verus!
