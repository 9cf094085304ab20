//! The layouts of a mount and the data servers behind them.
//!
//! Everything belongs to a generation of the session with the metadata server. What comes in
//! for another generation than the current one is refused.

use bytes::Bytes;
use vstd::prelude::*;

use crate::buffer::{as_slice, contents, copy_from_slice, duplicate, from_vec};
use crate::error::{rpc_error, ErrorView, NfsError, Result};
use crate::net::{addr_key, key_of, AddrView, SocketAddr};
use crate::nfs41::layout::{
    layout_segments_overlap, segment_views, should_negative_cache_ds_error, unreachable_error,
    DeviceInfo, DeviceView, Layout, LayoutSegment, LayoutView, SegmentView,
};
use crate::sort::{
    in_order, law_ordering_sorts_and_keeps_everything, lemma_placed, ordered_by, place,
};
use crate::table::Table;

verus! {

/// How many bytes of a file are written before its layout is returned and asked for anew.
pub const PNFS_LAYOUT_REFRESH_INTERVAL: u64 = 1_073_741_824;

/// Bytes of a file that were written through its layout and are not committed yet.
#[derive(Clone, Copy, Debug, PartialEq, Eq, Structural)]
pub struct DirtyRange {
    pub generation: u64,
    pub start: u64,
    pub end: u64,
    /// How often the range was extended.
    pub revision: u64,
}

/// A device and the generation that asked for it.
pub struct CachedDevice {
    pub generation: u64,
    pub info: DeviceInfo,
}

/// A connection to a data server and the generation that it belongs to.
#[derive(Clone, Copy, Debug, PartialEq, Eq)]
pub struct DataServer {
    pub addr: SocketAddr,
    /// The number under which the connection is kept.
    pub connection: u64,
    pub owner_generation: u64,
}

/// The layouts, devices and data servers of a mount.
pub struct LayoutManager {
    pub layouts: Table<Layout>,
    pub devices: Table<CachedDevice>,
    pub dirty: Table<DirtyRange>,
    pub refresh_offsets: Table<u64>,
    pub data_servers: Table<DataServer>,
    pub unreachable_ds: Table<()>,
    pub degenerate_logged: bool,
    pub noresvport: bool,
    pub active_generation: u64,
}

/// A manager as specifications see it. Layouts, dirty ranges and refresh offsets are kept by
/// filehandle, devices by device identifier, data servers by [`key_of`] their address.
#[verifier::ext_equal]
pub struct ManagerView {
    pub generation: u64,
    pub layouts: Map<Seq<u8>, LayoutView>,
    pub devices: Map<Seq<u8>, (u64, DeviceView)>,
    pub dirty: Map<Seq<u8>, DirtyRange>,
    pub refresh_offsets: Map<Seq<u8>, u64>,
    pub data_servers: Map<Seq<u8>, DataServer>,
    pub unreachable_ds: Set<Seq<u8>>,
    pub degenerate_logged: bool,
    pub noresvport: bool,
}

impl View for LayoutManager {
    type V = ManagerView;

    open spec fn view(&self) -> ManagerView {
        ManagerView {
            generation: self.active_generation,
            layouts: self.layouts@.map_values(|layout: Layout| layout@),
            devices: self.devices@.map_values(
                |device: CachedDevice| (device.generation, device.info@),
            ),
            dirty: self.dirty@,
            refresh_offsets: self.refresh_offsets@,
            data_servers: self.data_servers@,
            unreachable_ds: self.unreachable_ds@.dom(),
            degenerate_logged: self.degenerate_logged,
            noresvport: self.noresvport,
        }
    }
}

impl ManagerView {
    /// The layout of a file, if the current generation has one.
    pub open spec fn layout_of(self, fh: Seq<u8>) -> Option<LayoutView> {
        if self.layouts.contains_key(fh) && self.layouts[fh].generation == self.generation {
            Some(self.layouts[fh])
        } else {
            None
        }
    }

    /// The device with an identifier, if the current generation knows it.
    pub open spec fn device_of(self, device_id: Seq<u8>) -> Option<DeviceView> {
        if self.devices.contains_key(device_id) && self.devices[device_id].0 == self.generation {
            Some(self.devices[device_id].1)
        } else {
            None
        }
    }

    /// The dirty range of a file, if the current generation has one.
    pub open spec fn dirty_of(self, fh: Seq<u8>) -> Option<DirtyRange> {
        if self.dirty.contains_key(fh) && self.dirty[fh].generation == self.generation {
            Some(self.dirty[fh])
        } else {
            None
        }
    }

    /// The connection to a data server that belongs to a generation.
    pub open spec fn connection_of(self, addr: AddrView, owner_generation: u64) -> Option<u64> {
        if self.data_servers.contains_key(key_of(addr)) && self.data_servers[key_of(
            addr,
        )].owner_generation == owner_generation {
            Some(self.data_servers[key_of(addr)].connection)
        } else {
            None
        }
    }

    /// The manager of a new generation: all that belonged to another one is gone.
    pub open spec fn moved_to(self, generation: u64) -> ManagerView {
        ManagerView {
            generation,
            layouts: Map::empty(),
            devices: Map::empty(),
            dirty: Map::empty(),
            refresh_offsets: Map::empty(),
            data_servers: Map::empty(),
            unreachable_ds: Set::empty(),
            ..self
        }
    }

    /// The manager with a layout for a file, if it comes for the current generation.
    pub open spec fn with_layout(self, fh: Seq<u8>, generation: u64, layout: LayoutView) -> ManagerView {
        if generation == self.generation {
            ManagerView {
                layouts: self.layouts.insert(fh, LayoutView { generation, ..layout }),
                ..self
            }
        } else {
            self
        }
    }

    /// The manager with a layout merged into that of a file, if it comes for the current
    /// generation.
    pub open spec fn with_merged(self, fh: Seq<u8>, update: LayoutView) -> ManagerView {
        if update.generation != self.generation {
            self
        } else if self.layouts.contains_key(fh) {
            ManagerView {
                layouts: self.layouts.insert(fh, merged(self.layouts[fh], update)),
                ..self
            }
        } else {
            ManagerView { layouts: self.layouts.insert(fh, update), ..self }
        }
    }

    /// The manager with a device, if it comes for the current generation.
    pub open spec fn with_device(self, device_id: Seq<u8>, generation: u64, info: DeviceView) -> ManagerView {
        if generation == self.generation {
            ManagerView { devices: self.devices.insert(device_id, (generation, info)), ..self }
        } else {
            self
        }
    }

    /// The manager after bytes of a file were written, if they were written under the current
    /// generation.
    pub open spec fn with_dirty(self, fh: Seq<u8>, generation: u64, start: u64, end: u64) -> ManagerView {
        if generation == self.generation {
            ManagerView {
                dirty: self.dirty.insert(
                    fh,
                    if self.dirty.contains_key(fh) {
                        extended(self.dirty[fh], start, end)
                    } else {
                        DirtyRange { generation, start, end, revision: 0 }
                    },
                ),
                ..self
            }
        } else {
            self
        }
    }

    /// Whether a committed range is what is still dirty.
    pub open spec fn settles(self, fh: Seq<u8>, committed: DirtyRange) -> bool {
        self.dirty.contains_key(fh) && self.dirty[fh] == committed && committed.generation
            == self.generation
    }

    /// The manager after a range was committed.
    pub open spec fn with_committed(self, fh: Seq<u8>, committed: DirtyRange) -> ManagerView {
        if self.settles(fh, committed) {
            ManagerView { dirty: self.dirty.remove(fh), ..self }
        } else {
            self
        }
    }

    /// Where in a file its layout is asked for anew.
    pub open spec fn refresh_offset(self, fh: Seq<u8>) -> u64 {
        if self.refresh_offsets.contains_key(fh) {
            self.refresh_offsets[fh]
        } else {
            PNFS_LAYOUT_REFRESH_INTERVAL
        }
    }
}

/// A dirty range with more bytes.
pub open spec fn extended(range: DirtyRange, start: u64, end: u64) -> DirtyRange {
    DirtyRange {
        generation: range.generation,
        start: if range.start <= start {
            range.start
        } else {
            start
        },
        end: if range.end >= end {
            range.end
        } else {
            end
        },
        revision: range.revision.wrapping_add(1),
    }
}

/// Whether a segment overlaps one of some others.
pub open spec fn replaced(segment: SegmentView, by: Seq<SegmentView>) -> bool {
    exists|i: int| 0 <= i < by.len() && segment.overlaps(#[trigger] by[i])
}

/// The segments that overlap none of some others.
pub open spec fn kept(segments: Seq<SegmentView>, others: Seq<SegmentView>) -> Seq<SegmentView>
    decreases segments.len(),
{
    if segments.len() == 0 {
        segments
    } else if replaced(segments.last(), others) {
        kept(segments.drop_last(), others)
    } else {
        kept(segments.drop_last(), others).push(segments.last())
    }
}

/// Whether one of some segments covers an offset.
pub open spec fn covered(segments: Seq<SegmentView>, offset: u64) -> bool {
    exists|i: int| 0 <= i < segments.len() && (#[trigger] segments[i]).covers(offset)
}

/// Segments in the order of their offsets.
pub open spec fn by_offset(segments: Seq<SegmentView>) -> Seq<SegmentView> {
    ordered_by(segments, |segment: SegmentView| segment.offset as int)
}

/// A layout with an update: segments of the update take the place of those that they overlap.
pub open spec fn merged(current: LayoutView, update: LayoutView) -> LayoutView {
    LayoutView {
        generation: current.generation,
        stateid: update.stateid,
        return_on_close: current.return_on_close || update.return_on_close,
        segments: by_offset(kept(current.segments, update.segments) + update.segments),
    }
}

/// The offset behind the window of an offset, or the last offset there is.
pub open spec fn next_window(offset: u64) -> u64 {
    let next = (offset as int / PNFS_LAYOUT_REFRESH_INTERVAL as int + 1)
        * PNFS_LAYOUT_REFRESH_INTERVAL;
    if next > u64::MAX {
        u64::MAX
    } else {
        next as u64
    }
}

fn is_replaced(segment: &LayoutSegment, by: &Vec<LayoutSegment>) -> (result: bool)
    ensures
        result == replaced(segment@, segment_views(by@)),
{
    let mut i: usize = 0;
    while i < by.len()
        invariant
            i <= by@.len(),
            forall|k: int| 0 <= k < i ==> !segment@.overlaps(#[trigger] segment_views(by@)[k]),
        decreases by.len() - i,
    {
        assert(segment_views(by@)[i as int] == by@[i as int]@);
        if layout_segments_overlap(segment, &by[i]) {
            return true;
        }
        i += 1;
    }
    false
}

/// Puts a segment behind those whose offsets are not greater.
fn insert_segment(sorted: &mut Vec<LayoutSegment>, segment: LayoutSegment, Ghost(s): Ghost<Seq<SegmentView>>)
    requires
        segment_views(old(sorted)@) == by_offset(s),
    ensures
        segment_views(final(sorted)@) == by_offset(s.push(segment@)),
{
    let ghost key = |segment: SegmentView| segment.offset as int;
    let ghost before = segment_views(sorted@);
    let ghost value = segment@;
    let mut at: usize = sorted.len();
    assert(before.take(at as int) =~= before);
    while at > 0 && sorted[at - 1].offset > segment.offset
        invariant
            at <= sorted@.len(),
            before == segment_views(sorted@),
            value == segment@,
            key == (|segment: SegmentView| segment.offset as int),
            place(before, value, key) == place(before.take(at as int), value, key),
        ensures
            at <= sorted@.len(),
            before == segment_views(sorted@),
            place(before, value, key) == at,
        decreases at,
    {
        assert(before.take(at as int).drop_last() =~= before.take(at - 1));
        assert(before.take(at as int).last() == sorted@[at - 1]@);
        at -= 1;
    }
    proof {
        lemma_placed(before, value, key);
        assert(s.push(value).drop_last() =~= s);
    }
    let ghost inserted = sorted@.insert(at as int, segment);
    sorted.insert(at, segment);
    assert(segment_views(inserted) =~= before.insert(at as int, value));
}

fn merge_segments(current: &Vec<LayoutSegment>, update: Vec<LayoutSegment>) -> (segments: Vec<
    LayoutSegment,
>)
    ensures
        segment_views(segments@) == by_offset(
            kept(segment_views(current@), segment_views(update@)) + segment_views(update@),
        ),
{
    let ghost old_views = segment_views(current@);
    let ghost new_views = segment_views(update@);
    let mut sorted: Vec<LayoutSegment> = Vec::new();
    let mut i: usize = 0;
    assert(old_views.take(0) =~= Seq::empty());
    assert(segment_views(sorted@) =~= Seq::empty());
    while i < current.len()
        invariant
            i <= current@.len(),
            old_views == segment_views(current@),
            new_views == segment_views(update@),
            segment_views(sorted@) == by_offset(kept(old_views.take(i as int), new_views)),
        decreases current.len() - i,
    {
        assert(old_views.take(i + 1).drop_last() =~= old_views.take(i as int));
        assert(old_views.take(i + 1).last() == current@[i as int]@);
        if !is_replaced(&current[i], &update) {
            let segment = current[i].copy();
            let ghost s = kept(old_views.take(i as int), new_views);
            insert_segment(&mut sorted, segment, Ghost(s));
        }
        i += 1;
    }
    assert(old_views.take(i as int) =~= old_views);
    let ghost first = kept(old_views, new_views);
    let mut k: usize = 0;
    assert(first + new_views.take(0) =~= first);
    while k < update.len()
        invariant
            k <= update@.len(),
            new_views == segment_views(update@),
            segment_views(sorted@) == by_offset(first + new_views.take(k as int)),
        decreases update.len() - k,
    {
        let segment = update[k].copy();
        let ghost s = first + new_views.take(k as int);
        assert(s.push(segment@) =~= first + new_views.take(k + 1));
        insert_segment(&mut sorted, segment, Ghost(s));
        k += 1;
    }
    assert(new_views.take(k as int) =~= new_views);
    sorted
}

/// What to do for a connection to a data server.
#[derive(Clone, Copy, Debug, PartialEq, Eq, Structural)]
pub enum DataServerStep {
    /// Use the connection with a number.
    Use(u64),
    /// Connect and set up a session.
    Connect,
}

/// How the attempt to connect to a data server went.
#[derive(Debug)]
pub enum ConnectOutcome {
    /// The connection is kept under a number.
    Connected(u64),
    Failed(NfsError),
    /// There was no answer in time.
    TimedOut,
}

/// Why there is no connection to a data server.
#[derive(Debug)]
pub enum DataServerError {
    Nfs(NfsError),
    /// The address was found to be unreachable before.
    Unreachable(SocketAddr),
    /// There was no answer in time.
    TimedOut(SocketAddr),
}

impl LayoutManager {
    pub open spec fn wf(self) -> bool {
        &&& self.layouts.wf()
        &&& self.devices.wf()
        &&& self.dirty.wf()
        &&& self.refresh_offsets.wf()
        &&& self.data_servers.wf()
        &&& self.unreachable_ds.wf()
        &&& forall|key: Seq<u8>| #[trigger]
            self.data_servers@.contains_key(key) ==> key_of(self.data_servers@[key].addr@) == key
    }

    pub fn new(noresvport: bool) -> (manager: Self)
        ensures
            manager.wf(),
            manager@ == (ManagerView {
                generation: 1,
                layouts: Map::empty(),
                devices: Map::empty(),
                dirty: Map::empty(),
                refresh_offsets: Map::empty(),
                data_servers: Map::empty(),
                unreachable_ds: Set::empty(),
                degenerate_logged: false,
                noresvport,
            }),
    {
        let manager = LayoutManager {
            layouts: Table::new(),
            devices: Table::new(),
            dirty: Table::new(),
            refresh_offsets: Table::new(),
            data_servers: Table::new(),
            unreachable_ds: Table::new(),
            degenerate_logged: false,
            noresvport,
            active_generation: 1,
        };
        assert(manager@.layouts =~= Map::empty());
        assert(manager@.devices =~= Map::empty());
        assert(manager@.unreachable_ds =~= Set::empty());
        manager
    }

    /// Moves on to another generation. Nothing of the one before is left.
    pub fn transition_to(&mut self, generation: u64)
        requires
            old(self).wf(),
        ensures
            final(self).wf(),
            final(self)@ == old(self)@.moved_to(generation),
    {
        self.active_generation = generation;
        self.layouts.clear();
        self.data_servers.clear();
        self.devices.clear();
        self.dirty.clear();
        self.unreachable_ds.clear();
        self.refresh_offsets.clear();
        assert(self@.layouts =~= Map::empty());
        assert(self@.devices =~= Map::empty());
        assert(self@.unreachable_ds =~= Set::empty());
    }

    pub fn generation(&self) -> (generation: u64)
        ensures
            generation == self@.generation,
    {
        self.active_generation
    }

    /// Remembers that an address cannot be reached.
    pub fn mark_ds_unreachable(&mut self, addr: SocketAddr)
        requires
            old(self).wf(),
        ensures
            final(self).wf(),
            final(self)@ == (ManagerView {
                unreachable_ds: old(self)@.unreachable_ds.insert(key_of(addr@)),
                ..old(self)@
            }),
    {
        self.unreachable_ds.put(from_vec(addr_key(&addr)), ());
        assert(self@.unreachable_ds =~= old(self)@.unreachable_ds.insert(key_of(addr@)));
    }

    /// Whether an address is known to be out of reach.
    pub fn is_ds_unreachable(&self, addr: &SocketAddr) -> (result: bool)
        requires
            self.wf(),
        ensures
            result == self@.unreachable_ds.contains(key_of(addr@)),
    {
        let key = addr_key(addr);
        self.unreachable_ds.find(&key).is_some()
    }

    /// Whether it is still to be reported that all data servers are the metadata server: true
    /// the first time only.
    pub fn should_log_degenerate(&mut self) -> (first: bool)
        requires
            old(self).wf(),
        ensures
            final(self).wf(),
            first == !old(self)@.degenerate_logged,
            final(self)@ == (ManagerView { degenerate_logged: true, ..old(self)@ }),
    {
        let first = !self.degenerate_logged;
        self.degenerate_logged = true;
        first
    }

    /// Keeps a layout as it is.
    pub fn store_layout(&mut self, fh: &Bytes, layout: Layout)
        requires
            old(self).wf(),
        ensures
            final(self).wf(),
            final(self)@ == (ManagerView {
                layouts: old(self)@.layouts.insert(contents(*fh), layout@),
                ..old(self)@
            }),
    {
        let ghost view = layout@;
        self.layouts.put(duplicate(fh), layout);
        assert(self@.layouts =~= old(self)@.layouts.insert(contents(*fh), view));
    }

    /// Keeps a layout that a generation was granted, if it is the current one.
    pub fn store_layout_at(&mut self, fh: &Bytes, generation: u64, layout: Layout) -> (stored: bool)
        requires
            old(self).wf(),
        ensures
            final(self).wf(),
            stored == (generation == old(self)@.generation),
            final(self)@ == old(self)@.with_layout(contents(*fh), generation, layout@),
    {
        if generation != self.active_generation {
            return false;
        }
        let ghost view = layout@;
        let mut layout = layout;
        layout.generation = generation;
        assert(layout@ == (LayoutView { generation, ..view }));
        self.store_layout(fh, layout);
        true
    }

    /// The layout of a file.
    pub fn get_layout(&self, fh: &Bytes) -> (layout: Option<Layout>)
        requires
            self.wf(),
        ensures
            match self@.layout_of(contents(*fh)) {
                Some(expected) => layout is Some && layout->Some_0@ == expected,
                None => layout is None,
            },
    {
        match self.layouts.get(as_slice(fh)) {
            Some(layout) => if layout.generation == self.active_generation {
                Some(layout.copy())
            } else {
                None
            },
            None => None,
        }
    }

    /// The layout of a file, if one of its segments covers an offset. A segment that ends
    /// before the offset is no reason not to ask for another.
    pub fn get_layout_covering(&self, fh: &Bytes, offset: u64) -> (layout: Option<Layout>)
        requires
            self.wf(),
        ensures
            match self@.layout_of(contents(*fh)) {
                Some(expected) => if covered(expected.segments, offset) {
                    layout is Some && layout->Some_0@ == expected
                } else {
                    layout is None
                },
                None => layout is None,
            },
    {
        let layout = self.get_layout(fh)?;
        let mut i: usize = 0;
        while i < layout.segments.len()
            invariant
                i <= layout.segments@.len(),
                self@.layout_of(contents(*fh)) == Some(layout@),
                forall|k: int| 0 <= k < i ==> !(#[trigger] layout@.segments[k]).covers(offset),
            decreases layout.segments.len() - i,
        {
            assert(layout@.segments[i as int] == layout.segments@[i as int]@);
            if layout.segments[i].covers(offset) {
                assert(covered(layout@.segments, offset));
                return Some(layout);
            }
            i += 1;
        }
        None
    }

    /// Merges a layout into that of a file, if it comes for the current generation.
    pub fn merge_layout(&mut self, fh: &Bytes, update: Layout)
        requires
            old(self).wf(),
        ensures
            final(self).wf(),
            final(self)@ == old(self)@.with_merged(contents(*fh), update@),
    {
        let ghost key = contents(*fh);
        let ghost view = update@;
        if update.generation != self.active_generation {
            return ;
        }
        match self.layouts.find(as_slice(fh)) {
            Some(i) => {
                let current = &self.layouts.entries[i].value;
                let ghost before = current@;
                let next = Layout {
                    generation: current.generation,
                    stateid: update.stateid,
                    return_on_close: current.return_on_close || update.return_on_close,
                    segments: merge_segments(&current.segments, update.segments),
                };
                assert(next@ == merged(before, view));
                let ghost after = next@;
                self.layouts.set_at(i, next);
                assert(self@.layouts =~= old(self)@.layouts.insert(key, after));
            },
            None => {
                self.layouts.put(duplicate(fh), update);
                assert(self@.layouts =~= old(self)@.layouts.insert(key, view));
            },
        }
    }

    /// Takes the layout of a file out, and what is known of when to ask for it anew.
    pub fn remove_layout(&mut self, fh: &Bytes) -> (removed: Option<Layout>)
        requires
            old(self).wf(),
        ensures
            final(self).wf(),
            match removed {
                Some(layout) => old(self)@.layouts.contains_key(contents(*fh)) && layout@ == old(
                    self,
                )@.layouts[contents(*fh)],
                None => !old(self)@.layouts.contains_key(contents(*fh)),
            },
            final(self)@ == (ManagerView {
                layouts: old(self)@.layouts.remove(contents(*fh)),
                refresh_offsets: old(self)@.refresh_offsets.remove(contents(*fh)),
                ..old(self)@
            }),
    {
        let removed = self.layouts.remove(as_slice(fh));
        let _ = self.refresh_offsets.remove(as_slice(fh));
        assert(self@.layouts =~= old(self)@.layouts.remove(contents(*fh)));
        removed
    }

    /// Whether the layout of a file is to be asked for anew before an offset is written.
    pub fn layout_refresh_due(&self, fh: &Bytes, offset: u64) -> (due: bool)
        requires
            self.wf(),
        ensures
            due == (offset >= self@.refresh_offset(contents(*fh))),
    {
        match self.refresh_offsets.get(as_slice(fh)) {
            Some(next) => offset >= *next,
            None => offset >= PNFS_LAYOUT_REFRESH_INTERVAL,
        }
    }

    /// Notes that the layout of a file was asked for at an offset.
    pub fn record_layout_refresh(&mut self, fh: &Bytes, offset: u64)
        requires
            old(self).wf(),
        ensures
            final(self).wf(),
            final(self)@ == (ManagerView {
                refresh_offsets: old(self)@.refresh_offsets.insert(
                    contents(*fh),
                    next_window(offset),
                ),
                ..old(self)@
            }),
    {
        let windows: u64 = offset / PNFS_LAYOUT_REFRESH_INTERVAL + 1;
        let next: u64 = match windows.checked_mul(PNFS_LAYOUT_REFRESH_INTERVAL) {
            Some(next) => next,
            None => u64::MAX,
        };
        self.refresh_offsets.put(duplicate(fh), next);
    }

    /// All layouts with their filehandles.
    pub fn all_layouts(&self) -> (all: Vec<(Bytes, Layout)>)
        requires
            self.wf(),
        ensures
            all@.len() == self.layouts.entries@.len(),
            forall|i: int|
                0 <= i < all@.len() ==> self@.layouts.contains_key(contents((#[trigger] all@[i]).0))
                    && self@.layouts[contents(all@[i].0)] == all@[i].1@,
            forall|fh: Seq<u8>| #[trigger]
                self@.layouts.contains_key(fh) ==> exists|i: int|
                    0 <= i < all@.len() && contents((#[trigger] all@[i]).0) == fh,
            forall|i: int, j: int|
                0 <= i < j < all@.len() ==> contents((#[trigger] all@[i]).0) != contents(
                    (#[trigger] all@[j]).0,
                ),
    {
        let mut all: Vec<(Bytes, Layout)> = Vec::new();
        let mut i: usize = 0;
        while i < self.layouts.entries.len()
            invariant
                self.wf(),
                i <= self.layouts.entries@.len(),
                all@.len() == i,
                forall|k: int|
                    0 <= k < i ==> contents((#[trigger] all@[k]).0) == self.layouts.key_at(k)
                        && all@[k].1@ == self.layouts.entries@[k].value@,
            decreases self.layouts.entries.len() - i,
        {
            all.push(
                (
                    duplicate(&self.layouts.entries[i].key),
                    self.layouts.entries[i].value.copy(),
                ),
            );
            i += 1;
        }
        proof {
            assert forall|k: int| 0 <= k < all@.len() implies self@.layouts.contains_key(
                contents((#[trigger] all@[k]).0),
            ) && self@.layouts[contents(all@[k].0)] == all@[k].1@ by {
                self.layouts.lemma_entry(k);
            }
            assert forall|fh: Seq<u8>| #[trigger]
                self@.layouts.contains_key(fh) implies exists|k: int|
                0 <= k < all@.len() && contents((#[trigger] all@[k]).0) == fh by {
                let k = self.layouts.slot(fh);
                assert(self.layouts.has(fh));
                assert(contents(all@[k].0) == fh);
            }
        }
        all
    }

    /// Forgets layouts, devices, dirty ranges and refresh offsets.
    pub fn clear(&mut self)
        requires
            old(self).wf(),
        ensures
            final(self).wf(),
            final(self)@ == (ManagerView {
                layouts: Map::empty(),
                devices: Map::empty(),
                dirty: Map::empty(),
                refresh_offsets: Map::empty(),
                ..old(self)@
            }),
    {
        self.layouts.clear();
        self.devices.clear();
        self.dirty.clear();
        self.refresh_offsets.clear();
        assert(self@.layouts =~= Map::empty());
        assert(self@.devices =~= Map::empty());
    }

    /// Notes bytes that were written through the layout of a file, if under the current
    /// generation.
    pub fn mark_dirty_at(&mut self, fh: &Bytes, generation: u64, start: u64, end: u64) -> (marked:
        bool)
        requires
            old(self).wf(),
        ensures
            final(self).wf(),
            marked == (generation == old(self)@.generation),
            final(self)@ == old(self)@.with_dirty(contents(*fh), generation, start, end),
    {
        if generation != self.active_generation {
            return false;
        }
        match self.dirty.find(as_slice(fh)) {
            Some(i) => {
                let range: DirtyRange = self.dirty.entries[i].value;
                let next = DirtyRange {
                    generation: range.generation,
                    start: if range.start <= start { range.start } else { start },
                    end: if range.end >= end { range.end } else { end },
                    revision: range.revision.wrapping_add(1),
                };
                self.dirty.set_at(i, next);
            },
            None => {
                self.dirty.put(
                    duplicate(fh),
                    DirtyRange { generation, start, end, revision: 0 },
                );
            },
        }
        true
    }

    /// Notes bytes that were written under the current generation.
    pub fn mark_dirty(&mut self, fh: &Bytes, start: u64, end: u64)
        requires
            old(self).wf(),
        ensures
            final(self).wf(),
            final(self)@ == old(self)@.with_dirty(
                contents(*fh),
                old(self)@.generation,
                start,
                end,
            ),
    {
        let generation: u64 = self.active_generation;
        let _ = self.mark_dirty_at(fh, generation, start, end);
    }

    /// What is dirty of a file.
    pub fn snapshot_dirty(&self, fh: &Bytes) -> (range: Option<DirtyRange>)
        requires
            self.wf(),
        ensures
            range == self@.dirty_of(contents(*fh)),
    {
        match self.dirty.get(as_slice(fh)) {
            Some(range) => if range.generation == self.active_generation {
                Some(*range)
            } else {
                None
            },
            None => None,
        }
    }

    /// Notes that a range was committed. It stays dirty if it was extended meanwhile.
    pub fn acknowledge_dirty(&mut self, fh: &Bytes, committed: DirtyRange) -> (unchanged: bool)
        requires
            old(self).wf(),
        ensures
            final(self).wf(),
            unchanged == old(self)@.settles(contents(*fh), committed),
            final(self)@ == old(self)@.with_committed(contents(*fh), committed),
    {
        match self.dirty.find(as_slice(fh)) {
            Some(i) => {
                let current: DirtyRange = self.dirty.entries[i].value;
                if current == committed && committed.generation == self.active_generation {
                    let _ = self.dirty.remove_at(i);
                    true
                } else {
                    false
                }
            },
            None => false,
        }
    }

    /// Forgets what is dirty of a file.
    pub fn invalidate_dirty(&mut self, fh: &Bytes)
        requires
            old(self).wf(),
        ensures
            final(self).wf(),
            final(self)@ == (ManagerView {
                dirty: old(self)@.dirty.remove(contents(*fh)),
                ..old(self)@
            }),
    {
        let _ = self.dirty.remove(as_slice(fh));
    }

    /// Takes out what is dirty of a file: where it begins and where it ends.
    pub fn take_dirty(&mut self, fh: &Bytes) -> (range: Option<(u64, u64)>)
        requires
            old(self).wf(),
        ensures
            final(self).wf(),
            range == (match old(self)@.dirty_of(contents(*fh)) {
                Some(range) => Some((range.start, range.end)),
                None => None,
            }),
            final(self)@ == (ManagerView {
                dirty: old(self)@.dirty.remove(contents(*fh)),
                ..old(self)@
            }),
    {
        match self.dirty.remove(as_slice(fh)) {
            Some(range) => if range.generation == self.active_generation {
                Some((range.start, range.end))
            } else {
                None
            },
            None => None,
        }
    }

    /// Keeps a device for the current generation.
    pub fn store_device(&mut self, device_id: [u8; 16], info: DeviceInfo)
        requires
            old(self).wf(),
        ensures
            final(self).wf(),
            final(self)@ == old(self)@.with_device(device_id@, old(self)@.generation, info@),
    {
        let generation: u64 = self.active_generation;
        let _ = self.store_device_at(device_id, generation, info);
    }

    /// Keeps a device that a generation asked for, if it is the current one.
    pub fn store_device_at(&mut self, device_id: [u8; 16], generation: u64, info: DeviceInfo) -> (stored:
        bool)
        requires
            old(self).wf(),
        ensures
            final(self).wf(),
            stored == (generation == old(self)@.generation),
            final(self)@ == old(self)@.with_device(device_id@, generation, info@),
    {
        if generation != self.active_generation {
            return false;
        }
        let ghost view = info@;
        self.devices.put(copy_from_slice(&device_id), CachedDevice { generation, info });
        assert(self@.devices =~= old(self)@.devices.insert(device_id@, (generation, view)));
        true
    }

    /// The device with an identifier.
    pub fn get_device(&self, device_id: &[u8; 16]) -> (info: Option<DeviceInfo>)
        requires
            self.wf(),
        ensures
            match self@.device_of(device_id@) {
                Some(expected) => info is Some && info->Some_0@ == expected,
                None => info is None,
            },
    {
        match self.devices.get(device_id) {
            Some(device) => if device.generation == self.active_generation {
                Some(device.info.copy())
            } else {
                None
            },
            None => None,
        }
    }

    /// The connection to a data server, if there is one for a generation. Only the current
    /// generation may ask.
    pub fn find_data_server(&self, addr: &SocketAddr, owner_generation: u64) -> (connection: Result<
        Option<u64>,
    >)
        requires
            self.wf(),
        ensures
            if owner_generation != self@.generation {
                &&& connection is Err
                &&& connection->Err_0@ == ErrorView::Rpc(
                    "refusing data-server I/O for stale MDS generation"@,
                )
            } else {
                &&& connection is Ok
                &&& connection->Ok_0 == self@.connection_of(addr@, owner_generation)
            },
    {
        if owner_generation != self.active_generation {
            return Err(rpc_error("refusing data-server I/O for stale MDS generation"));
        }
        Ok(self.cached_data_server(addr, owner_generation))
    }

    fn cached_data_server(&self, addr: &SocketAddr, owner_generation: u64) -> (connection: Option<
        u64,
    >)
        requires
            self.wf(),
        ensures
            connection == self@.connection_of(addr@, owner_generation),
    {
        let key = addr_key(addr);
        match self.data_servers.get(&key) {
            Some(server) => if server.owner_generation == owner_generation {
                Some(server.connection)
            } else {
                None
            },
            None => None,
        }
    }

    /// What to do for a connection once no other attempt to reach the address is under way.
    pub fn begin_data_server(&self, addr: SocketAddr, owner_generation: u64) -> (step: std::result::Result<
        DataServerStep,
        DataServerError,
    >)
        requires
            self.wf(),
        ensures
            if owner_generation != self@.generation {
                &&& step matches Err(DataServerError::Nfs(error))
                &&& error@ == ErrorView::Rpc(
                    "refusing data-server initialization for stale MDS generation"@,
                )
            } else {
                match self@.connection_of(addr@, owner_generation) {
                    Some(connection) => step == Ok::<DataServerStep, DataServerError>(
                        DataServerStep::Use(connection),
                    ),
                    None => if self@.unreachable_ds.contains(key_of(addr@)) {
                        step == Err::<DataServerStep, DataServerError>(
                            DataServerError::Unreachable(addr),
                        )
                    } else {
                        step == Ok::<DataServerStep, DataServerError>(DataServerStep::Connect)
                    },
                }
            },
    {
        if owner_generation != self.active_generation {
            return Err(
                DataServerError::Nfs(
                    rpc_error("refusing data-server initialization for stale MDS generation"),
                ),
            );
        }
        if let Some(connection) = self.cached_data_server(&addr, owner_generation) {
            return Ok(DataServerStep::Use(connection));
        }
        if self.is_ds_unreachable(&addr) {
            return Err(DataServerError::Unreachable(addr));
        }
        Ok(DataServerStep::Connect)
    }

    /// Takes in how the attempt to connect went. A connection for a generation that is over
    /// meanwhile is not kept.
    pub fn finish_data_server(
        &mut self,
        addr: SocketAddr,
        owner_generation: u64,
        outcome: ConnectOutcome,
    ) -> (connection: std::result::Result<u64, DataServerError>)
        requires
            old(self).wf(),
        ensures
            final(self).wf(),
            match outcome {
                ConnectOutcome::Connected(number) => if owner_generation == old(self)@.generation {
                    &&& connection == Ok::<u64, DataServerError>(number)
                    &&& final(self)@ == (ManagerView {
                        data_servers: old(self)@.data_servers.insert(
                            key_of(addr@),
                            DataServer { addr, connection: number, owner_generation },
                        ),
                        ..old(self)@
                    })
                } else {
                    &&& connection matches Err(DataServerError::Nfs(error))
                    &&& error@ == ErrorView::Rpc(
                        "discarding data-server connection from stale MDS generation"@,
                    )
                    &&& final(self)@ == old(self)@
                },
                ConnectOutcome::Failed(error) => {
                    &&& connection == Err::<u64, DataServerError>(DataServerError::Nfs(error))
                    &&& final(self)@ == (if unreachable_error(error) {
                        ManagerView {
                            unreachable_ds: old(self)@.unreachable_ds.insert(key_of(addr@)),
                            ..old(self)@
                        }
                    } else {
                        old(self)@
                    })
                },
                ConnectOutcome::TimedOut => {
                    &&& connection == Err::<u64, DataServerError>(DataServerError::TimedOut(addr))
                    &&& final(self)@ == (ManagerView {
                        unreachable_ds: old(self)@.unreachable_ds.insert(key_of(addr@)),
                        ..old(self)@
                    })
                },
            },
    {
        match outcome {
            ConnectOutcome::Connected(connection) => {
                if owner_generation != self.active_generation {
                    return Err(
                        DataServerError::Nfs(
                            rpc_error(
                                "discarding data-server connection from stale MDS generation",
                            ),
                        ),
                    );
                }
                self.data_servers.put(
                    from_vec(addr_key(&addr)),
                    DataServer { addr, connection, owner_generation },
                );
                Ok(connection)
            },
            ConnectOutcome::Failed(error) => {
                if should_negative_cache_ds_error(&error) {
                    self.mark_ds_unreachable(addr);
                }
                Err(DataServerError::Nfs(error))
            },
            ConnectOutcome::TimedOut => {
                self.mark_ds_unreachable(addr);
                Err(DataServerError::TimedOut(addr))
            },
        }
    }

    /// Forgets the connection to a data server and returns its number.
    pub fn remove_data_server(&mut self, addr: SocketAddr) -> (connection: Option<u64>)
        requires
            old(self).wf(),
        ensures
            final(self).wf(),
            connection == (if old(self)@.data_servers.contains_key(key_of(addr@)) {
                Some(old(self)@.data_servers[key_of(addr@)].connection)
            } else {
                None
            }),
            final(self)@ == (ManagerView {
                data_servers: old(self)@.data_servers.remove(key_of(addr@)),
                ..old(self)@
            }),
    {
        let key = addr_key(&addr);
        match self.data_servers.remove(&key) {
            Some(server) => Some(server.connection),
            None => None,
        }
    }

    /// Forgets every connection and returns them with the addresses that they lead to.
    pub fn drain_data_servers(&mut self) -> (connections: Vec<(SocketAddr, u64)>)
        requires
            old(self).wf(),
        ensures
            final(self).wf(),
            final(self)@ == (ManagerView { data_servers: Map::empty(), ..old(self)@ }),
            forall|i: int|
                0 <= i < connections@.len() ==> ({
                    let key = key_of((#[trigger] connections@[i]).0@);
                    &&& old(self)@.data_servers.contains_key(key)
                    &&& old(self)@.data_servers[key].connection == connections@[i].1
                }),
            forall|i: int, j: int|
                0 <= i < j < connections@.len() ==> key_of((#[trigger] connections@[i]).0@) != key_of(
                    (#[trigger] connections@[j]).0@,
                ),
            forall|key: Seq<u8>| #[trigger]
                old(self)@.data_servers.contains_key(key) ==> exists|i: int|
                    0 <= i < connections@.len() && key_of((#[trigger] connections@[i]).0@) == key,
    {
        let ghost before = self.data_servers;
        let mut connections: Vec<(SocketAddr, u64)> = Vec::new();
        let mut i: usize = 0;
        while i < self.data_servers.entries.len()
            invariant
                i <= self.data_servers.entries@.len(),
                self.data_servers == before,
                *self == *old(self),
                connections@.len() == i,
                forall|k: int|
                    0 <= k < i ==> #[trigger] connections@[k] == (
                        before.entries@[k].value.addr,
                        before.entries@[k].value.connection,
                    ),
            decreases self.data_servers.entries.len() - i,
        {
            let server = self.data_servers.entries[i].value;
            connections.push((server.addr, server.connection));
            i += 1;
        }
        self.data_servers.clear();
        proof {
            assert forall|k: int| 0 <= k < connections@.len() implies key_of(
                (#[trigger] connections@[k]).0@,
            ) == before.key_at(k) && before@.contains_key(before.key_at(k)) && before@[before.key_at(
                k,
            )] == before.entries@[k].value by {
                before.lemma_entry(k);
            }
            assert forall|i: int, j: int| 0 <= i < j < connections@.len() implies key_of(
                (#[trigger] connections@[i]).0@,
            ) != key_of((#[trigger] connections@[j]).0@) by {
                assert(before.key_at(i) != before.key_at(j));
            }
            assert forall|key: Seq<u8>| #[trigger] before@.contains_key(key) implies exists|i: int|
                0 <= i < connections@.len() && key_of((#[trigger] connections@[i]).0@) == key by {
                let k = before.slot(key);
                assert(before.has(key));
                assert(key_of(connections@[k].0@) == key);
            }
        }
        connections
    }
}

/// After the move to another generation no file has a layout or dirty bytes, no device is
/// known, and no data server is connected or out of reach.
pub proof fn law_transition_leaves_nothing(manager: ManagerView, generation: u64)
    ensures
        forall|fh: Seq<u8>| #[trigger] manager.moved_to(generation).layout_of(fh) is None,
        forall|fh: Seq<u8>| #[trigger] manager.moved_to(generation).dirty_of(fh) is None,
        forall|id: Seq<u8>| #[trigger] manager.moved_to(generation).device_of(id) is None,
        forall|addr: AddrView, owner: u64| #[trigger]
            manager.moved_to(generation).connection_of(addr, owner) is None,
{
}

/// What comes in for a generation that is not the current one changes nothing.
pub proof fn law_other_generations_are_fenced(
    manager: ManagerView,
    fh: Seq<u8>,
    generation: u64,
    layout: LayoutView,
    device: DeviceView,
    start: u64,
    end: u64,
)
    requires
        generation != manager.generation,
    ensures
        manager.with_layout(fh, generation, layout) == manager,
        manager.with_merged(fh, LayoutView { generation, ..layout }) == manager,
        manager.with_device(fh, generation, device) == manager,
        manager.with_dirty(fh, generation, start, end) == manager,
{
}

/// A layout that was stored for the current generation is the layout of its file.
pub proof fn law_stored_layout_is_found(
    manager: ManagerView,
    fh: Seq<u8>,
    layout: LayoutView,
)
    ensures
        manager.with_layout(fh, manager.generation, layout).layout_of(fh) == Some(
            LayoutView { generation: manager.generation, ..layout },
        ),
{
}

/// A range that was extended after it was looked at stays dirty when it is acknowledged.
pub proof fn law_extended_range_stays_dirty(
    manager: ManagerView,
    fh: Seq<u8>,
    start: u64,
    end: u64,
)
    requires
        manager.dirty_of(fh) is Some,
    ensures
        ({
            let seen = manager.dirty_of(fh)->Some_0;
            let later = manager.with_dirty(fh, manager.generation, start, end);
            later.with_committed(fh, seen) == later
        }),
{
    let seen = manager.dirty_of(fh)->Some_0;
    assert(seen.revision.wrapping_add(1) != seen.revision);
}

/// A range that was not extended is clean once it is acknowledged, and the ranges of other
/// files stay as they are.
pub proof fn law_acknowledged_range_is_clean(manager: ManagerView, fh: Seq<u8>, other: Seq<u8>)
    requires
        manager.dirty_of(fh) is Some,
        other != fh,
    ensures
        ({
            let later = manager.with_committed(fh, manager.dirty_of(fh)->Some_0);
            later.dirty_of(fh) is None && later.dirty_of(other) == manager.dirty_of(other)
        }),
{
}

/// What is dirty covers all bytes that were written.
pub proof fn law_dirty_range_covers_writes(
    manager: ManagerView,
    fh: Seq<u8>,
    start: u64,
    end: u64,
)
    requires
        manager.dirty.contains_key(fh) ==> manager.dirty[fh].generation == manager.generation,
    ensures
        ({
            let later = manager.with_dirty(fh, manager.generation, start, end).dirty_of(fh);
            &&& later is Some
            &&& later->Some_0.start <= start
            &&& later->Some_0.end >= end
            &&& manager.dirty_of(fh) is Some ==> later->Some_0.start
                <= manager.dirty_of(fh)->Some_0.start && later->Some_0.end
                >= manager.dirty_of(fh)->Some_0.end
        }),
{
}

/// Once a layout was asked for at an offset, it is not asked for again within the window of
/// the offset, and is where the next window begins.
pub proof fn law_refresh_is_due_once_per_window(offset: u64, later: u64)
    ensures
        next_window(offset) > offset || offset == u64::MAX,
        next_window(offset) < u64::MAX && later >= offset && later as int
            / PNFS_LAYOUT_REFRESH_INTERVAL as int == offset as int
            / PNFS_LAYOUT_REFRESH_INTERVAL as int ==> later < next_window(offset),
        next_window(offset) < u64::MAX ==> next_window(offset) as int
            / PNFS_LAYOUT_REFRESH_INTERVAL as int == offset as int
            / PNFS_LAYOUT_REFRESH_INTERVAL as int + 1,
{
}

proof fn lemma_kept(segments: Seq<SegmentView>, others: Seq<SegmentView>)
    ensures
        forall|segment: SegmentView| #[trigger]
            kept(segments, others).contains(segment) <==> segments.contains(segment) && !replaced(
                segment,
                others,
            ),
    decreases segments.len(),
{
    if segments.len() > 0 {
        lemma_kept(segments.drop_last(), others);
        let before = kept(segments.drop_last(), others);
        let all = kept(segments, others);
        assert forall|segment: SegmentView| #[trigger]
            all.contains(segment) <==> segments.contains(segment) && !replaced(segment, others) by {
            if all.contains(segment) {
                let i = choose|i: int| 0 <= i < all.len() && all[i] == segment;
                if i < before.len() {
                    assert(before[i] == all[i]);
                    assert(before.contains(segment));
                    let k = choose|k: int|
                        0 <= k < segments.drop_last().len() && segments.drop_last()[k] == segment;
                    assert(segments[k] == segment);
                } else {
                    assert(segments[segments.len() - 1] == segment);
                }
            }
            if segments.contains(segment) && !replaced(segment, others) {
                let k = choose|k: int| 0 <= k < segments.len() && segments[k] == segment;
                if k < segments.len() - 1 {
                    assert(segments.drop_last()[k] == segment);
                    assert(before.contains(segment));
                    let i = choose|i: int| 0 <= i < before.len() && before[i] == segment;
                    assert(all[i] == segment);
                } else {
                    assert(all[all.len() - 1] == segment);
                }
            }
        }
    }
}

/// A merged layout holds the segments of the update and those of the current layout that
/// overlap none of them, no others, in the order of their offsets.
pub proof fn law_merge_replaces_overlapping_segments(current: LayoutView, update: LayoutView)
    ensures
        forall|segment: SegmentView| #[trigger]
            merged(current, update).segments.contains(segment) <==> update.segments.contains(
                segment,
            ) || (current.segments.contains(segment) && !replaced(segment, update.segments)),
        in_order(
            merged(current, update).segments,
            |segment: SegmentView| segment.offset as int,
        ),
{
    let key = |segment: SegmentView| segment.offset as int;
    let first = kept(current.segments, update.segments);
    let all = first + update.segments;
    law_ordering_sorts_and_keeps_everything(all, key);
    lemma_kept(current.segments, update.segments);
    assert forall|segment: SegmentView| #[trigger]
        merged(current, update).segments.contains(segment) <==> update.segments.contains(segment)
            || (current.segments.contains(segment) && !replaced(segment, update.segments)) by {
        all.to_multiset_ensures();
        by_offset(all).to_multiset_ensures();
        assert(all.contains(segment) <==> all.to_multiset().count(segment) > 0);
        assert(by_offset(all).contains(segment) <==> by_offset(all).to_multiset().count(segment)
            > 0);
        if all.contains(segment) {
            let i = choose|i: int| 0 <= i < all.len() && all[i] == segment;
            if i < first.len() {
                assert(first[i] == segment);
            } else {
                assert(update.segments[i - first.len()] == segment);
            }
        }
        if first.contains(segment) {
            let i = choose|i: int| 0 <= i < first.len() && first[i] == segment;
            assert(all[i] == segment);
        }
        if update.segments.contains(segment) {
            let i = choose|i: int| 0 <= i < update.segments.len() && update.segments[i] == segment;
            assert(all[first.len() + i] == segment);
        }
    }
}

/// Taking the layout of a file out makes the next one due where a new file's would be.
pub proof fn law_removed_layout_restarts_refresh(manager: ManagerView, fh: Seq<u8>)
    ensures
        (ManagerView {
            layouts: manager.layouts.remove(fh),
            refresh_offsets: manager.refresh_offsets.remove(fh),
            ..manager
        }).refresh_offset(fh) == PNFS_LAYOUT_REFRESH_INTERVAL,
{
}

/// A device that was stored is found, with what was stored for it; others stay as they are.
pub proof fn law_stored_device_is_found(
    manager: ManagerView,
    device_id: Seq<u8>,
    info: DeviceView,
    other: Seq<u8>,
)
    requires
        other != device_id,
    ensures
        ({
            let after = manager.with_device(device_id, manager.generation, info);
            &&& after.device_of(device_id) == Some(info)
            &&& after.device_of(other) == manager.device_of(other)
            &&& after.layouts == manager.layouts
            &&& after.dirty == manager.dirty
            &&& after.data_servers == manager.data_servers
        }),
{
}

/// A layout that was stored or merged leaves those of other files as they are.
pub proof fn law_layouts_of_files_are_independent(
    manager: ManagerView,
    fh: Seq<u8>,
    layout: LayoutView,
    other: Seq<u8>,
)
    requires
        other != fh,
    ensures
        manager.with_layout(fh, manager.generation, layout).layout_of(other) == manager.layout_of(
            other,
        ),
        manager.with_merged(fh, layout).layout_of(other) == manager.layout_of(other),
{
}

/// A merged layout goes by the stateid of the update, stays in its generation, and goes back on
/// CLOSE where either of both does; one without an earlier layout is the update itself.
pub proof fn law_merged_layout_goes_by_the_update(
    manager: ManagerView,
    fh: Seq<u8>,
    update: LayoutView,
)
    requires
        update.generation == manager.generation,
        manager.layouts.contains_key(fh) ==> manager.layouts[fh].generation == manager.generation,
    ensures
        ({
            let after = manager.with_merged(fh, update).layout_of(fh);
            &&& after is Some
            &&& after->Some_0.stateid == update.stateid
            &&& manager.layout_of(fh) is None ==> after->Some_0 == update
            &&& manager.layout_of(fh) is Some ==> (after->Some_0.return_on_close
                <==> update.return_on_close || manager.layout_of(fh)->Some_0.return_on_close)
        }),
{
}

/// A range that is extended is the smallest that holds both, and counts as another one.
pub proof fn law_extended_range_is_the_smallest(range: DirtyRange, start: u64, end: u64)
    ensures
        ({
            let after = extended(range, start, end);
            &&& after.start <= range.start && after.start <= start
            &&& after.start == range.start || after.start == start
            &&& after.end >= range.end && after.end >= end
            &&& after.end == range.end || after.end == end
            &&& after.revision != range.revision
            &&& after.generation == range.generation
        }),
{
}

/// A file that was clean becomes dirty in just the range that was written.
pub proof fn law_first_write_is_the_dirty_range(
    manager: ManagerView,
    fh: Seq<u8>,
    start: u64,
    end: u64,
)
    requires
        !manager.dirty.contains_key(fh),
    ensures
        ({
            let after = manager.with_dirty(fh, manager.generation, start, end).dirty_of(fh);
            &&& after is Some
            &&& after->Some_0.start == start
            &&& after->Some_0.end == end
            &&& after->Some_0.generation == manager.generation
        }),
{
}

/// A connection is used again just for the owner that made it, and only at its address.
pub proof fn law_connection_belongs_to_its_owner(
    manager: ManagerView,
    addr: AddrView,
    owner: u64,
    other: u64,
)
    requires
        other != owner,
        manager.connection_of(addr, owner) is Some,
    ensures
        manager.connection_of(addr, other) is None,
{
}

/// The window of an offset is the next multiple of a gibibyte behind it.
pub proof fn law_windows_are_gibibytes(offset: u64)
    requires
        offset < 0xffff_ffff_0000_0000,
    ensures
        next_window(offset) % 0x4000_0000 == 0,
        offset < next_window(offset) <= offset + 0x4000_0000,
{
}


} // verus!
