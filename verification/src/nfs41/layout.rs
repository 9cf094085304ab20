//! pNFS layouts (RFC 8881 §12): what the metadata server grants, and the data servers that a
//! granted layout names.
//!
//! Of the layout types only LAYOUT4_NFSV4_1_FILES is decoded; the content of others is kept
//! as it came.

use bytes::Bytes;
use vstd::prelude::*;
use vstd::slice::slice_to_vec;
use vstd::utf8::{decode_utf8, valid_utf8};

use crate::buffer::{
    advance, as_slice, contents, duplicate, get_u32, get_u64, prefix, remaining, take_array,
};
use crate::error::{xdr_error, ErrorView, IoErrorKind, NfsError, Result};
use crate::net::{
    addr_prefix_len, netaddr, parse_netaddr4, prefix_len, same, same_addr, AddrView, IpAddr,
    SocketAddr,
};
use crate::nfs4::compound::{chain, Decoded, Parsed};
use crate::sort::{lemma_placed, ordered_by, place};
use crate::text::{around_number, decimal, utf8_text, with_number};
use crate::xdr::{be32, be64, bool32, hyper, opaque, padded, padded_len, word};


pub mod devices;
pub mod manager;
pub mod stripes;

verus! {

/// A type of layouts.
#[derive(Debug, Clone, Copy, PartialEq, Eq, Structural)]
pub enum LayoutType {
    NfsV41Files,
    Osd2Objects,
    BlockVolume,
}

impl LayoutType {
    /// The number of a layout type on the wire.
    pub open spec fn spec_number(self) -> u32 {
        match self {
            LayoutType::NfsV41Files => 1,
            LayoutType::Osd2Objects => 2,
            LayoutType::BlockVolume => 3,
        }
    }

    #[verifier::when_used_as_spec(spec_number)]
    pub fn number(self) -> (number: u32)
        ensures
            number == self.spec_number(),
    {
        match self {
            LayoutType::NfsV41Files => 1,
            LayoutType::Osd2Objects => 2,
            LayoutType::BlockVolume => 3,
        }
    }
}

/// What a layout is for.
#[derive(Debug, Clone, Copy, PartialEq, Eq, Structural)]
pub enum IoMode {
    Read,
    ReadWrite,
}

impl IoMode {
    /// The number of an I/O mode on the wire.
    pub open spec fn spec_number(self) -> u32 {
        match self {
            IoMode::Read => 1,
            IoMode::ReadWrite => 2,
        }
    }

    #[verifier::when_used_as_spec(spec_number)]
    pub fn number(self) -> (number: u32)
        ensures
            number == self.spec_number(),
    {
        match self {
            IoMode::Read => 1,
            IoMode::ReadWrite => 2,
        }
    }
}

/// What a segment says of its data servers.
#[derive(Debug)]
pub enum LayoutContent {
    /// nfsv4_1_file_layout4 (RFC 8881 §13.3).
    FilesLayout {
        device_id: [u8; 16],
        /// The size of a stripe unit in bytes.
        stripe_unit: u32,
        /// Whether data servers hold their stripes without gaps.
        is_dense: bool,
        /// Which data server holds the first stripe.
        first_stripe_index: u32,
        /// Where in the file the pattern starts.
        pattern_offset: u64,
        /// The filehandles on the data servers.
        fh_list: Vec<Bytes>,
    },
    /// The content of another layout type.
    Opaque(Bytes),
}

/// What a segment says of its data servers, as specifications see it.
#[verifier::ext_equal]
pub enum ContentView {
    Files {
        device_id: Seq<u8>,
        stripe_unit: u32,
        is_dense: bool,
        first_stripe_index: u32,
        pattern_offset: u64,
        fh_list: Seq<Seq<u8>>,
    },
    Opaque(Seq<u8>),
}

impl View for LayoutContent {
    type V = ContentView;

    open spec fn view(&self) -> ContentView {
        match self {
            LayoutContent::FilesLayout {
                device_id,
                stripe_unit,
                is_dense,
                first_stripe_index,
                pattern_offset,
                fh_list,
            } => ContentView::Files {
                device_id: device_id@,
                stripe_unit: *stripe_unit,
                is_dense: *is_dense,
                first_stripe_index: *first_stripe_index,
                pattern_offset: *pattern_offset,
                fh_list: fh_list@.map_values(|fh: Bytes| contents(fh)),
            },
            LayoutContent::Opaque(data) => ContentView::Opaque(contents(*data)),
        }
    }
}

impl LayoutContent {
    pub fn copy(&self) -> (copy: Self)
        ensures
            copy@ == self@,
    {
        match self {
            LayoutContent::FilesLayout {
                device_id,
                stripe_unit,
                is_dense,
                first_stripe_index,
                pattern_offset,
                fh_list,
            } => {
                let mut list: Vec<Bytes> = Vec::new();
                let mut i: usize = 0;
                while i < fh_list.len()
                    invariant
                        i <= fh_list@.len(),
                        list@.len() == i,
                        forall|k: int|
                            0 <= k < i ==> contents(#[trigger] list@[k]) == contents(fh_list@[k]),
                    decreases fh_list.len() - i,
                {
                    list.push(duplicate(&fh_list[i]));
                    i += 1;
                }
                assert(list@.map_values(|fh: Bytes| contents(fh)) =~= fh_list@.map_values(
                    |fh: Bytes| contents(fh),
                ));
                LayoutContent::FilesLayout {
                    device_id: *device_id,
                    stripe_unit: *stripe_unit,
                    is_dense: *is_dense,
                    first_stripe_index: *first_stripe_index,
                    pattern_offset: *pattern_offset,
                    fh_list: list,
                }
            },
            LayoutContent::Opaque(data) => LayoutContent::Opaque(duplicate(data)),
        }
    }
}

/// A range of a file and where its bytes are.
#[derive(Debug)]
pub struct LayoutSegment {
    pub offset: u64,
    pub length: u64,
    pub iomode: IoMode,
    pub layout_type: LayoutType,
    pub content: LayoutContent,
}

/// A segment as specifications see it.
#[verifier::ext_equal]
pub struct SegmentView {
    pub offset: u64,
    pub length: u64,
    pub iomode: IoMode,
    pub layout_type: LayoutType,
    pub content: ContentView,
}

impl View for LayoutSegment {
    type V = SegmentView;

    open spec fn view(&self) -> SegmentView {
        SegmentView {
            offset: self.offset,
            length: self.length,
            iomode: self.iomode,
            layout_type: self.layout_type,
            content: self.content@,
        }
    }
}

impl SegmentView {
    /// Whether the byte at an offset belongs to the segment. A length of all ones reaches to
    /// the end of the file, and so does one that runs past the last offset.
    pub open spec fn covers(self, offset: u64) -> bool {
        self.offset <= offset && (self.length == u64::MAX || self.offset + self.length > u64::MAX
            || offset < self.offset + self.length)
    }

    /// Where the segment ends.
    pub open spec fn end(self) -> int {
        if self.length == u64::MAX || self.offset + self.length > u64::MAX {
            u64::MAX as int
        } else {
            self.offset + self.length
        }
    }

    /// Whether each of two segments begins in front of the end of the other. So an empty segment
    /// within another overlaps it, and the last byte that there is counts for neither.
    pub open spec fn overlaps(self, other: SegmentView) -> bool {
        self.offset < other.end() && other.offset < self.end()
    }
}

impl LayoutSegment {
    pub fn covers(&self, offset: u64) -> (covered: bool)
        ensures
            covered == self@.covers(offset),
    {
        offset >= self.offset && (self.length == u64::MAX || match self.offset.checked_add(
            self.length,
        ) {
            Some(end) => offset < end,
            None => true,
        })
    }

    fn end(&self) -> (end: u64)
        ensures
            end == self@.end(),
    {
        if self.length == u64::MAX {
            u64::MAX
        } else {
            match self.offset.checked_add(self.length) {
                Some(end) => end,
                None => u64::MAX,
            }
        }
    }

    pub fn copy(&self) -> (copy: Self)
        ensures
            copy@ == self@,
    {
        LayoutSegment {
            offset: self.offset,
            length: self.length,
            iomode: self.iomode,
            layout_type: self.layout_type,
            content: self.content.copy(),
        }
    }
}

pub fn layout_segments_overlap(left: &LayoutSegment, right: &LayoutSegment) -> (result: bool)
    ensures
        result == left@.overlaps(right@),
{
    left.offset < right.end() && right.offset < left.end()
}

/// A layout that the server granted for a file.
#[derive(Debug)]
pub struct Layout {
    /// The generation of the session that granted the layout.
    pub generation: u64,
    pub stateid: [u8; 16],
    pub return_on_close: bool,
    pub segments: Vec<LayoutSegment>,
}

/// A layout as specifications see it.
#[verifier::ext_equal]
pub struct LayoutView {
    pub generation: u64,
    pub stateid: Seq<u8>,
    pub return_on_close: bool,
    pub segments: Seq<SegmentView>,
}

/// Segments as specifications see them.
pub open spec fn segment_views(segments: Seq<LayoutSegment>) -> Seq<SegmentView> {
    segments.map_values(|segment: LayoutSegment| segment@)
}

impl View for Layout {
    type V = LayoutView;

    open spec fn view(&self) -> LayoutView {
        LayoutView {
            generation: self.generation,
            stateid: self.stateid@,
            return_on_close: self.return_on_close,
            segments: segment_views(self.segments@),
        }
    }
}

impl Layout {
    pub fn copy(&self) -> (copy: Self)
        ensures
            copy@ == self@,
    {
        let mut segments: Vec<LayoutSegment> = Vec::new();
        let mut i: usize = 0;
        while i < self.segments.len()
            invariant
                i <= self.segments@.len(),
                segments@.len() == i,
                forall|k: int| 0 <= k < i ==> (#[trigger] segments@[k])@ == self.segments@[k]@,
            decreases self.segments.len() - i,
        {
            segments.push(self.segments[i].copy());
            i += 1;
        }
        assert(segment_views(segments@) =~= segment_views(self.segments@));
        Layout {
            generation: self.generation,
            stateid: self.stateid,
            return_on_close: self.return_on_close,
            segments,
        }
    }
}

/// The data servers of a device.
#[derive(Debug)]
pub struct DeviceInfo {
    /// Which of the data servers holds each stripe.
    pub stripe_indices: Vec<u32>,
    /// The addresses of each data server.
    pub ds_addrs: Vec<Vec<SocketAddr>>,
}

/// A device as specifications see it.
#[verifier::ext_equal]
pub struct DeviceView {
    pub stripe_indices: Seq<u32>,
    pub ds_addrs: Seq<Seq<SocketAddr>>,
}

impl View for DeviceInfo {
    type V = DeviceView;

    open spec fn view(&self) -> DeviceView {
        DeviceView {
            stripe_indices: self.stripe_indices@,
            ds_addrs: self.ds_addrs@.map_values(|paths: Vec<SocketAddr>| paths@),
        }
    }
}

impl DeviceInfo {
    pub fn copy(&self) -> (copy: Self)
        ensures
            copy@ == self@,
    {
        let mut stripe_indices: Vec<u32> = Vec::new();
        let mut i: usize = 0;
        while i < self.stripe_indices.len()
            invariant
                i <= self.stripe_indices@.len(),
                stripe_indices@ =~= self.stripe_indices@.take(i as int),
            decreases self.stripe_indices.len() - i,
        {
            stripe_indices.push(self.stripe_indices[i]);
            i += 1;
        }
        assert(self.stripe_indices@.take(i as int) =~= self.stripe_indices@);
        let mut ds_addrs: Vec<Vec<SocketAddr>> = Vec::new();
        let mut i: usize = 0;
        while i < self.ds_addrs.len()
            invariant
                i <= self.ds_addrs@.len(),
                ds_addrs@.len() == i,
                forall|k: int| 0 <= k < i ==> (#[trigger] ds_addrs@[k])@ == self.ds_addrs@[k]@,
            decreases self.ds_addrs.len() - i,
        {
            let paths = &self.ds_addrs[i];
            let mut copied: Vec<SocketAddr> = Vec::new();
            let mut k: usize = 0;
            while k < paths.len()
                invariant
                    k <= paths@.len(),
                    copied@ =~= paths@.take(k as int),
                decreases paths.len() - k,
            {
                copied.push(paths[k]);
                k += 1;
            }
            assert(paths@.take(k as int) =~= paths@);
            ds_addrs.push(copied);
            i += 1;
        }
        assert(ds_addrs@.map_values(|paths: Vec<SocketAddr>| paths@) =~= self@.ds_addrs);
        DeviceInfo { stripe_indices, ds_addrs }
    }
}

/// Whether a failure to reach a data server says that its address cannot be reached. A
/// failure of the protocol does not.
pub open spec fn unreachable_error(error: NfsError) -> bool {
    match error {
        NfsError::Io(kind) => {
            ||| kind == IoErrorKind::ConnectionRefused
            ||| kind == IoErrorKind::HostUnreachable
            ||| kind == IoErrorKind::NetworkUnreachable
            ||| kind == IoErrorKind::TimedOut
        },
        _ => false,
    }
}

pub fn should_negative_cache_ds_error(error: &NfsError) -> (result: bool)
    ensures
        result == unreachable_error(*error),
{
    match error {
        NfsError::Io(kind) => *kind == IoErrorKind::ConnectionRefused || *kind
            == IoErrorKind::HostUnreachable || *kind == IoErrorKind::NetworkUnreachable || *kind
            == IoErrorKind::TimedOut,
        _ => false,
    }
}

/// Whether every data server of a device is the metadata server itself: the address that is
/// tried first is the server's. A device without data servers is no such device.
pub open spec fn degenerate(device: DeviceView, server_addr: SocketAddr) -> bool {
    &&& device.ds_addrs.len() > 0
    &&& forall|i: int|
        0 <= i < device.ds_addrs.len() ==> (#[trigger] device.ds_addrs[i]).len() > 0 && same(
            device.ds_addrs[i][0],
            server_addr,
        )
}

pub fn is_degenerate_device(device: &DeviceInfo, server_addr: &SocketAddr) -> (result: bool)
    ensures
        result == degenerate(device@, *server_addr),
{
    if device.ds_addrs.len() == 0 {
        return false;
    }
    let mut i: usize = 0;
    while i < device.ds_addrs.len()
        invariant
            i <= device.ds_addrs@.len(),
            forall|k: int|
                0 <= k < i ==> (#[trigger] device@.ds_addrs[k]).len() > 0 && same(
                    device@.ds_addrs[k][0],
                    *server_addr,
                ),
        decreases device.ds_addrs.len() - i,
    {
        assert(device@.ds_addrs[i as int] == device.ds_addrs@[i as int]@);
        if device.ds_addrs[i].len() == 0 || !same_addr(&device.ds_addrs[i][0], server_addr) {
            return false;
        }
        i += 1;
    }
    true
}

/// The place of an address among those of a data server: first the server's own address,
/// then addresses of its family, of those the ones that begin like it.
pub open spec fn affinity_rank(addr: SocketAddr, server_addr: SocketAddr) -> int {
    (if same(addr, server_addr) {
        0int
    } else {
        512
    }) + (if (addr.ip is V4) == (server_addr.ip is V4) {
        0int
    } else {
        256
    }) + (128 - prefix_len(addr, server_addr))
}

fn rank_addr(addr: &SocketAddr, server_addr: &SocketAddr) -> (rank: u32)
    ensures
        rank == affinity_rank(*addr, *server_addr),
{
    let exact = same_addr(addr, server_addr);
    let same_family = match (&addr.ip, &server_addr.ip) {
        (IpAddr::V4(_), IpAddr::V4(_)) => true,
        (IpAddr::V6(_), IpAddr::V6(_)) => true,
        _ => false,
    };
    let prefix: u32 = addr_prefix_len(addr, server_addr);
    (if exact {
        0
    } else {
        512
    }) + (if same_family {
        0
    } else {
        256
    }) + (128 - prefix)
}

/// The addresses of a data server in the order in which they are tried.
pub open spec fn by_affinity(paths: Seq<SocketAddr>, server_addr: SocketAddr) -> Seq<SocketAddr> {
    ordered_by(paths, |addr: SocketAddr| affinity_rank(addr, server_addr))
}

fn sort_paths(paths: &Vec<SocketAddr>, server_addr: &SocketAddr) -> (sorted: Vec<SocketAddr>)
    ensures
        sorted@ == by_affinity(paths@, *server_addr),
{
    let mut sorted: Vec<SocketAddr> = Vec::new();
    let ghost key = |addr: SocketAddr| affinity_rank(addr, *server_addr);
    let mut i: usize = 0;
    assert(paths@.take(0) =~= Seq::empty());
    while i < paths.len()
        invariant
            i <= paths@.len(),
            key == (|addr: SocketAddr| affinity_rank(addr, *server_addr)),
            sorted@ == ordered_by(paths@.take(i as int), key),
        decreases paths.len() - i,
    {
        let addr: SocketAddr = paths[i];
        let rank: u32 = rank_addr(&addr, server_addr);
        let ghost before = sorted@;
        let mut at: usize = sorted.len();
        assert(before.take(at as int) =~= before);
        while at > 0 && rank_addr(&sorted[at - 1], server_addr) > rank
            invariant
                at <= sorted@.len(),
                sorted@ == before,
                rank == key(addr),
                key == (|addr: SocketAddr| affinity_rank(addr, *server_addr)),
                place(before, addr, key) == place(before.take(at as int), addr, key),
            ensures
                place(before, addr, key) == at,
            decreases at,
        {
            assert(before.take(at as int).drop_last() =~= before.take(at - 1));
            at -= 1;
        }
        proof {
            lemma_placed(before, addr, key);
            assert(paths@.take(i + 1).drop_last() =~= paths@.take(i as int));
        }
        sorted.insert(at, addr);
        i += 1;
    }
    assert(paths@.take(i as int) =~= paths@);
    sorted
}

/// Puts the addresses of each data server in the order in which they are tried. The list may
/// hold addresses of networks that cannot be reached from here, so the one that is nearest to
/// the metadata server comes first.
pub fn sort_multipath_by_affinity(info: &mut DeviceInfo, server_addr: &SocketAddr)
    ensures
        final(info)@ == (DeviceView {
            stripe_indices: old(info)@.stripe_indices,
            ds_addrs: old(info)@.ds_addrs.map_values(
                |paths: Seq<SocketAddr>| by_affinity(paths, *server_addr),
            ),
        }),
{
    let ghost before = info@.ds_addrs;
    let ghost indices = info.stripe_indices@;
    let mut i: usize = 0;
    while i < info.ds_addrs.len()
        invariant
            i <= info.ds_addrs@.len(),
            info.stripe_indices@ == indices,
            info.ds_addrs@.len() == before.len(),
            forall|k: int|
                0 <= k < i ==> (#[trigger] info.ds_addrs@[k])@ == by_affinity(
                    before[k],
                    *server_addr,
                ),
            forall|k: int|
                i <= k < info.ds_addrs@.len() ==> (#[trigger] info.ds_addrs@[k])@ == before[k],
        decreases info.ds_addrs.len() - i,
    {
        let sorted = sort_paths(&info.ds_addrs[i], server_addr);
        info.ds_addrs[i] = sorted;
        i += 1;
    }
    assert(info@.ds_addrs =~= before.map_values(
        |paths: Seq<SocketAddr>| by_affinity(paths, *server_addr),
    ));
}

/// `count` items at the front of some bytes.
pub open spec fn items<T>(item: spec_fn(Seq<u8>) -> Parsed<T>, s: Seq<u8>, count: nat) -> Parsed<Seq<T>>
    decreases count,
{
    if count == 0 {
        Ok((Seq::empty(), s))
    } else {
        match item(s) {
            Err(error) => Err(error),
            Ok((first, rest)) => behind(seq![first], items(item, rest, (count - 1) as nat)),
        }
    }
}

/// Items behind others that were read already.
pub open spec fn behind<T>(done: Seq<T>, rest: Parsed<Seq<T>>) -> Parsed<Seq<T>> {
    match rest {
        Ok((others, s)) => Ok((done + others, s)),
        Err(error) => Err(error),
    }
}

/// A length, that many bytes and their padding.
pub open spec fn counted_bytes(s: Seq<u8>, no_length: Seq<char>, no_data: Seq<char>) -> Parsed<Seq<u8>> {
    if s.len() < 4 {
        Err(ErrorView::Xdr(no_length))
    } else if s.skip(4).len() < padded(word(s) as nat) {
        Err(ErrorView::Xdr(no_data))
    } else {
        Ok((s.skip(4).take(word(s) as int), s.skip(4).skip(padded(word(s) as nat) as int)))
    }
}

fn take_counted(data: &mut Bytes, no_length: &str, no_data: &str) -> (value: Result<Bytes>)
    ensures
        match counted_bytes(contents(*old(data)), no_length@, no_data@) {
            Ok((expected, rest)) => value is Ok && contents(value->Ok_0) == expected && contents(
                *final(data),
            ) == rest,
            Err(error) => value is Err && value->Err_0@ == error,
        },
{
    if remaining(data) < 4 {
        return Err(xdr_error(no_length));
    }
    let len: u32 = get_u32(data);
    let padded: u64 = padded_len(len);
    if (remaining(data) as u64) < padded {
        return Err(xdr_error(no_data));
    }
    let value = prefix(data, len as usize);
    advance(data, padded as usize);
    Ok(value)
}

/// A filehandle of a files layout.
pub open spec fn layout_fh(s: Seq<u8>) -> Parsed<Seq<u8>> {
    counted_bytes(s, "files_layout fh truncated"@, "files_layout fh data truncated"@)
}

/// An nfsv4_1_file_layout4.
pub open spec fn files_layout(s: Seq<u8>) -> Decoded<ContentView> {
    if s.len() < 16 {
        Err(ErrorView::Xdr("files_layout deviceid truncated"@))
    } else if s.len() < 20 {
        Err(ErrorView::Xdr("files_layout nfl_util truncated"@))
    } else if s.len() < 24 {
        Err(ErrorView::Xdr("files_layout first_stripe_index truncated"@))
    } else if s.len() < 32 {
        Err(ErrorView::Xdr("files_layout pattern_offset truncated"@))
    } else if s.len() < 36 {
        Err(ErrorView::Xdr("files_layout fh_list length truncated"@))
    } else if word(s.skip(32)) > 4096 {
        Err(
            ErrorView::Xdr(
                "files_layout has "@ + decimal(word(s.skip(32)) as nat) + " FHs, max 4096"@,
            ),
        )
    } else {
        chain(
            items(|s: Seq<u8>| layout_fh(s), s.skip(36), word(s.skip(32)) as nat),
            |fh_list: Seq<Seq<u8>>, rest: Seq<u8>|
                Ok::<ContentView, ErrorView>(
                    ContentView::Files {
                        device_id: s.take(16),
                        stripe_unit: word(s.skip(16)) & 0x3fff_ffff,
                        is_dense: word(s.skip(16)) & 0x4000_0000 != 0,
                        first_stripe_index: word(s.skip(20)),
                        pattern_offset: hyper(s.skip(24)),
                        fh_list,
                    },
                ),
        )
    }
}

fn decode_fh_list(data: &mut Bytes, count: u32) -> (list: Result<Vec<Bytes>>)
    ensures
        match items(|s: Seq<u8>| layout_fh(s), contents(*old(data)), count as nat) {
            Ok((expected, rest)) => list is Ok && list->Ok_0@.map_values(|fh: Bytes| contents(fh))
                == expected && contents(*final(data)) == rest,
            Err(error) => list is Err && list->Err_0@ == error,
        },
{
    let ghost item = |s: Seq<u8>| layout_fh(s);
    let ghost view = |fh: Bytes| contents(fh);
    let ghost all = items(item, contents(*data), count as nat);
    let mut list: Vec<Bytes> = Vec::new();
    let mut i: u32 = 0;
    assert(list@.map_values(view) =~= Seq::empty());
    assert(all == behind(list@.map_values(view), all)) by {
        if all is Ok {
            assert(Seq::empty() + all->Ok_0.0 =~= all->Ok_0.0);
        }
    }
    while i < count
        invariant
            i <= count,
            item == (|s: Seq<u8>| layout_fh(s)),
            view == (|fh: Bytes| contents(fh)),
            all == items(item, contents(*old(data)), count as nat),
            all == behind(
                list@.map_values(view),
                items(item, contents(*data), (count - i) as nat),
            ),
        decreases count - i,
    {
        let ghost before = list@.map_values(view);
        let fh = take_counted(data, "files_layout fh truncated", "files_layout fh data truncated")?;
        list.push(fh);
        i += 1;
        proof {
            assert(list@.map_values(view) =~= before.push(contents(fh)));
            let rest = items(item, contents(*data), (count - i) as nat);
            if rest is Ok {
                assert(before + (seq![contents(fh)] + rest->Ok_0.0) =~= before.push(contents(fh))
                    + rest->Ok_0.0);
            }
        }
    }
    assert(list@.map_values(view) + Seq::empty() =~= list@.map_values(view));
    Ok(list)
}

/// Whether content was read as expected.
pub open spec fn content_read_as(content: Result<LayoutContent>, expected: Decoded<ContentView>) -> bool {
    match expected {
        Ok(view) => content is Ok && content->Ok_0@ == view,
        Err(error) => content is Err && content->Err_0@ == error,
    }
}

pub fn decode_files_layout(data: &mut Bytes) -> (content: Result<LayoutContent>)
    ensures
        content_read_as(content, files_layout(contents(*old(data)))),
{
    let ghost s = contents(*data);
    if remaining(data) < 16 {
        return Err(xdr_error("files_layout deviceid truncated"));
    }
    let device_id: [u8; 16] = take_array(data);
    if remaining(data) < 4 {
        return Err(xdr_error("files_layout nfl_util truncated"));
    }
    let nfl_util: u32 = get_u32(data);
    assert(s.skip(16).skip(4) =~= s.skip(20));
    let stripe_unit: u32 = nfl_util & 0x3fff_ffff;
    let is_dense = nfl_util & 0x4000_0000 != 0;
    if remaining(data) < 4 {
        return Err(xdr_error("files_layout first_stripe_index truncated"));
    }
    let first_stripe_index: u32 = get_u32(data);
    assert(s.skip(20).skip(4) =~= s.skip(24));
    if remaining(data) < 8 {
        return Err(xdr_error("files_layout pattern_offset truncated"));
    }
    let pattern_offset: u64 = get_u64(data);
    assert(s.skip(24).skip(8) =~= s.skip(32));
    if remaining(data) < 4 {
        return Err(xdr_error("files_layout fh_list length truncated"));
    }
    let num_fhs: u32 = get_u32(data);
    assert(s.skip(32).skip(4) =~= s.skip(36));
    if num_fhs > 4096 {
        return Err(
            NfsError::Xdr(around_number("files_layout has ", num_fhs as u64, " FHs, max 4096")),
        );
    }
    let fh_list = decode_fh_list(data, num_fhs)?;
    Ok(
        LayoutContent::FilesLayout {
            device_id,
            stripe_unit,
            is_dense,
            first_stripe_index,
            pattern_offset,
            fh_list,
        },
    )
}

/// The I/O mode of a number. Numbers that name none stand for reading.
pub open spec fn iomode_of(number: u32) -> IoMode {
    if number == 2 {
        IoMode::ReadWrite
    } else {
        IoMode::Read
    }
}

/// The layout type of a number. Numbers that name none stand for a files layout.
pub open spec fn layout_type_of(number: u32) -> LayoutType {
    if number == 2 {
        LayoutType::Osd2Objects
    } else if number == 3 {
        LayoutType::BlockVolume
    } else {
        LayoutType::NfsV41Files
    }
}

/// A layout4.
pub open spec fn layout_segment(s: Seq<u8>) -> Parsed<SegmentView> {
    if s.len() < 24 {
        Err(ErrorView::Xdr("layout4 segment header truncated"@))
    } else {
        let layout_type = layout_type_of(word(s.skip(20)));
        chain(
            counted_bytes(
                s.skip(24),
                "layout_content length truncated"@,
                "layout_content data truncated"@,
            ),
            |data: Seq<u8>, rest: Seq<u8>|
                match layout_content(layout_type, data) {
                    Err(error) => Err::<(SegmentView, Seq<u8>), ErrorView>(error),
                    Ok(content) => Ok(
                        (
                            SegmentView {
                                offset: hyper(s),
                                length: hyper(s.skip(8)),
                                iomode: iomode_of(word(s.skip(16))),
                                layout_type,
                                content,
                            },
                            rest,
                        ),
                    ),
                },
        )
    }
}

/// The content of a segment.
pub open spec fn layout_content(layout_type: LayoutType, data: Seq<u8>) -> Decoded<ContentView> {
    if layout_type == LayoutType::NfsV41Files {
        files_layout(data)
    } else {
        Ok(ContentView::Opaque(data))
    }
}

/// The result of LAYOUTGET behind its status. The generation of the session is not part of
/// it.
pub open spec fn layoutget_response(s: Seq<u8>) -> Parsed<LayoutView> {
    if s.len() < 4 {
        Err(ErrorView::Xdr("LAYOUTGET return_on_close truncated"@))
    } else if s.len() < 20 {
        Err(ErrorView::Xdr("LAYOUTGET stateid truncated"@))
    } else if s.len() < 24 {
        Err(ErrorView::Xdr("LAYOUTGET segments array truncated"@))
    } else if word(s.skip(20)) > 1024 {
        Err(
            ErrorView::Xdr(
                "LAYOUTGET has "@ + decimal(word(s.skip(20)) as nat) + " segments, max 1024"@,
            ),
        )
    } else {
        chain(
            items(|s: Seq<u8>| layout_segment(s), s.skip(24), word(s.skip(20)) as nat),
            |segments: Seq<SegmentView>, rest: Seq<u8>|
                Ok::<(LayoutView, Seq<u8>), ErrorView>(
                    (
                        LayoutView {
                            generation: 0,
                            stateid: s.skip(4).take(16),
                            return_on_close: word(s) != 0,
                            segments,
                        },
                        rest,
                    ),
                ),
        )
    }
}

fn decode_segment(data: &mut Bytes) -> (segment: Result<LayoutSegment>)
    ensures
        match layout_segment(contents(*old(data))) {
            Ok((expected, rest)) => segment is Ok && segment->Ok_0@ == expected && contents(
                *final(data),
            ) == rest,
            Err(error) => segment is Err && segment->Err_0@ == error,
        },
{
    let ghost s = contents(*data);
    if remaining(data) < 24 {
        return Err(xdr_error("layout4 segment header truncated"));
    }
    let offset: u64 = get_u64(data);
    let length: u64 = get_u64(data);
    let iomode_val: u32 = get_u32(data);
    let layout_type_val: u32 = get_u32(data);
    assert(s.skip(8).skip(8) =~= s.skip(16));
    assert(s.skip(16).skip(4) =~= s.skip(20));
    assert(s.skip(20).skip(4) =~= s.skip(24));
    let iomode = match iomode_val {
        2 => IoMode::ReadWrite,
        _ => IoMode::Read,
    };
    let layout_type = match layout_type_val {
        2 => LayoutType::Osd2Objects,
        3 => LayoutType::BlockVolume,
        _ => LayoutType::NfsV41Files,
    };
    let mut content_data = take_counted(
        data,
        "layout_content length truncated",
        "layout_content data truncated",
    )?;
    let content = if layout_type == LayoutType::NfsV41Files {
        decode_files_layout(&mut content_data)?
    } else {
        LayoutContent::Opaque(content_data)
    };
    Ok(LayoutSegment { offset, length, iomode, layout_type, content })
}

fn decode_segments(data: &mut Bytes, count: u32) -> (segments: Result<Vec<LayoutSegment>>)
    ensures
        match items(|s: Seq<u8>| layout_segment(s), contents(*old(data)), count as nat) {
            Ok((expected, rest)) => segments is Ok && segment_views(segments->Ok_0@) == expected
                && contents(*final(data)) == rest,
            Err(error) => segments is Err && segments->Err_0@ == error,
        },
{
    let ghost item = |s: Seq<u8>| layout_segment(s);
    let ghost all = items(item, contents(*data), count as nat);
    let mut segments: Vec<LayoutSegment> = Vec::new();
    let mut i: u32 = 0;
    assert(segment_views(segments@) =~= Seq::empty());
    assert(all == behind(segment_views(segments@), all)) by {
        if all is Ok {
            assert(Seq::empty() + all->Ok_0.0 =~= all->Ok_0.0);
        }
    }
    while i < count
        invariant
            i <= count,
            item == (|s: Seq<u8>| layout_segment(s)),
            all == items(item, contents(*old(data)), count as nat),
            all == behind(
                segment_views(segments@),
                items(item, contents(*data), (count - i) as nat),
            ),
        decreases count - i,
    {
        let ghost before = segment_views(segments@);
        let segment = decode_segment(data)?;
        segments.push(segment);
        i += 1;
        proof {
            assert(segment_views(segments@) =~= before.push(segment@));
            let rest = items(item, contents(*data), (count - i) as nat);
            if rest is Ok {
                assert(before + (seq![segment@] + rest->Ok_0.0) =~= before.push(segment@)
                    + rest->Ok_0.0);
            }
        }
    }
    assert(segment_views(segments@) + Seq::empty() =~= segment_views(segments@));
    Ok(segments)
}

/// Decodes the result of LAYOUTGET behind its status.
pub fn decode_layoutget_response(data: &mut Bytes) -> (layout: Result<Layout>)
    ensures
        match layoutget_response(contents(*old(data))) {
            Ok((expected, rest)) => layout is Ok && layout->Ok_0@ == expected && contents(
                *final(data),
            ) == rest,
            Err(error) => layout is Err && layout->Err_0@ == error,
        },
{
    let ghost s = contents(*data);
    if remaining(data) < 4 {
        return Err(xdr_error("LAYOUTGET return_on_close truncated"));
    }
    let return_on_close = get_u32(data) != 0;
    if remaining(data) < 16 {
        return Err(xdr_error("LAYOUTGET stateid truncated"));
    }
    let stateid: [u8; 16] = take_array(data);
    assert(s.skip(4).skip(16) =~= s.skip(20));
    if remaining(data) < 4 {
        return Err(xdr_error("LAYOUTGET segments array truncated"));
    }
    let num_segments: u32 = get_u32(data);
    assert(s.skip(20).skip(4) =~= s.skip(24));
    if num_segments > 1024 {
        return Err(
            NfsError::Xdr(
                around_number("LAYOUTGET has ", num_segments as u64, " segments, max 1024"),
            ),
        );
    }
    let segments = decode_segments(data, num_segments)?;
    Ok(Layout { generation: 0, stateid, return_on_close, segments })
}


/// A string: a length, that many bytes of UTF-8 and their padding.
pub open spec fn xdr_text(s: Seq<u8>) -> Parsed<Seq<char>> {
    chain(
        counted_bytes(s, "XDR string length truncated"@, "XDR string data truncated"@),
        |data: Seq<u8>, rest: Seq<u8>|
            if valid_utf8(data) {
                Ok::<(Seq<char>, Seq<u8>), ErrorView>((decode_utf8(data), rest))
            } else {
                Err(ErrorView::Xdr("XDR string not valid UTF-8"@))
            },
    )
}

pub fn read_xdr_string(data: &mut Bytes) -> (text: Result<String>)
    ensures
        match xdr_text(contents(*old(data))) {
            Ok((expected, rest)) => text is Ok && text->Ok_0@ == expected && contents(*final(data))
                == rest,
            Err(error) => text is Err && text->Err_0@ == error,
        },
{
    let bytes = take_counted(data, "XDR string length truncated", "XDR string data truncated")?;
    match utf8_text(slice_to_vec(as_slice(&bytes))) {
        Ok(text) => Ok(text),
        Err(_) => Err(xdr_error("XDR string not valid UTF-8")),
    }
}

/// A netaddr4.
pub open spec fn netaddr_item(s: Seq<u8>) -> Parsed<AddrView> {
    chain(
        xdr_text(s),
        |netid: Seq<char>, rest: Seq<u8>|
            chain(
                xdr_text(rest),
                |addr: Seq<char>, rest: Seq<u8>|
                    match netaddr(netid, addr) {
                        Ok(addr) => Ok::<(AddrView, Seq<u8>), ErrorView>((addr, rest)),
                        Err(error) => Err(error),
                    },
            ),
    )
}

/// The addresses of a data server.
pub open spec fn multipath_item(s: Seq<u8>) -> Parsed<Seq<AddrView>> {
    if s.len() < 4 {
        Err(ErrorView::Xdr("GETDEVICEINFO multipath_list length truncated"@))
    } else if word(s) > 256 {
        Err(
            ErrorView::Xdr(
                "GETDEVICEINFO DS has "@ + decimal(word(s) as nat) + " addresses, max 256"@,
            ),
        )
    } else {
        items(|s: Seq<u8>| netaddr_item(s), s.skip(4), word(s) as nat)
    }
}

/// A device as it comes over the wire.
#[verifier::ext_equal]
pub struct DeviceAddrs {
    pub stripe_indices: Seq<u32>,
    pub ds_addrs: Seq<Seq<AddrView>>,
}

/// The words at the front of some bytes.
pub open spec fn word_list(s: Seq<u8>, count: nat) -> Seq<u32> {
    Seq::new(count, |i: int| word(s.skip(4 * i)))
}

/// An nfsv4_1_file_layout_ds_addr4.
pub open spec fn ds_addr_body(s: Seq<u8>) -> Decoded<DeviceAddrs> {
    let count = word(s);
    let rest = s.skip(4).skip(4 * count);
    if s.len() < 4 {
        Err(ErrorView::Xdr("GETDEVICEINFO stripe_indices length truncated"@))
    } else if count > 4096 {
        Err(
            ErrorView::Xdr(
                "GETDEVICEINFO has "@ + decimal(count as nat) + " stripe_indices, max 4096"@,
            ),
        )
    } else if s.skip(4).len() < 4 * count {
        Err(ErrorView::Xdr("GETDEVICEINFO stripe_indices data truncated"@))
    } else if rest.len() < 4 {
        Err(ErrorView::Xdr("GETDEVICEINFO multipath_ds_list length truncated"@))
    } else if word(rest) > 4096 {
        Err(
            ErrorView::Xdr(
                "GETDEVICEINFO has "@ + decimal(word(rest) as nat) + " data servers, max 4096"@,
            ),
        )
    } else {
        chain(
            items(|s: Seq<u8>| multipath_item(s), rest.skip(4), word(rest) as nat),
            |ds_addrs: Seq<Seq<AddrView>>, left: Seq<u8>|
                Ok::<DeviceAddrs, ErrorView>(
                    DeviceAddrs { stripe_indices: word_list(s.skip(4), count as nat), ds_addrs },
                ),
        )
    }
}

/// The result of GETDEVICEINFO behind its status, up to the notification bitmap.
pub open spec fn getdeviceinfo_response(s: Seq<u8>) -> Parsed<DeviceAddrs> {
    if s.len() < 4 {
        Err(ErrorView::Xdr("GETDEVICEINFO layout_type truncated"@))
    } else if word(s) != 1 {
        Err(
            ErrorView::Xdr(
                "GETDEVICEINFO unsupported layout type: "@ + decimal(word(s) as nat),
            ),
        )
    } else {
        chain(
            counted_bytes(
                s.skip(4),
                "GETDEVICEINFO da_addr_body length truncated"@,
                "GETDEVICEINFO da_addr_body truncated"@,
            ),
            |body: Seq<u8>, rest: Seq<u8>|
                match ds_addr_body(body) {
                    Ok(device) => Ok::<(DeviceAddrs, Seq<u8>), ErrorView>((device, rest)),
                    Err(error) => Err(error),
                },
        )
    }
}

/// Addresses as specifications see them.
pub open spec fn addr_views(addrs: Seq<SocketAddr>) -> Seq<AddrView> {
    addrs.map_values(|addr: SocketAddr| addr@)
}

/// The addresses of data servers as specifications see them.
pub open spec fn path_views(paths: Seq<Vec<SocketAddr>>) -> Seq<Seq<AddrView>> {
    paths.map_values(|addrs: Vec<SocketAddr>| addr_views(addrs@))
}

fn decode_netaddr(data: &mut Bytes) -> (addr: Result<SocketAddr>)
    ensures
        match netaddr_item(contents(*old(data))) {
            Ok((expected, rest)) => addr is Ok && addr->Ok_0@ == expected && contents(*final(data))
                == rest,
            Err(error) => addr is Err && addr->Err_0@ == error,
        },
{
    let r_netid = read_xdr_string(data)?;
    let r_addr = read_xdr_string(data)?;
    parse_netaddr4(r_netid.as_str(), r_addr.as_str())
}

fn decode_multipath(data: &mut Bytes) -> (addrs: Result<Vec<SocketAddr>>)
    ensures
        match multipath_item(contents(*old(data))) {
            Ok((expected, rest)) => addrs is Ok && addr_views(addrs->Ok_0@) == expected && contents(
                *final(data),
            ) == rest,
            Err(error) => addrs is Err && addrs->Err_0@ == error,
        },
{
    let ghost s = contents(*data);
    if remaining(data) < 4 {
        return Err(xdr_error("GETDEVICEINFO multipath_list length truncated"));
    }
    let count: u32 = get_u32(data);
    if count > 256 {
        return Err(
            NfsError::Xdr(
                around_number("GETDEVICEINFO DS has ", count as u64, " addresses, max 256"),
            ),
        );
    }
    let ghost item = |s: Seq<u8>| netaddr_item(s);
    let ghost all = items(item, s.skip(4), count as nat);
    let mut addrs: Vec<SocketAddr> = Vec::new();
    let mut i: u32 = 0;
    assert(addr_views(addrs@) =~= Seq::empty());
    assert(all == behind(addr_views(addrs@), all)) by {
        if all is Ok {
            assert(Seq::empty() + all->Ok_0.0 =~= all->Ok_0.0);
        }
    }
    assert(multipath_item(s) == all);
    while i < count
        invariant
            i <= count,
            item == (|s: Seq<u8>| netaddr_item(s)),
            all == multipath_item(contents(*old(data))),
            all == behind(
                addr_views(addrs@),
                items(item, contents(*data), (count - i) as nat),
            ),
        decreases count - i,
    {
        let ghost before = addr_views(addrs@);
        let addr: SocketAddr = decode_netaddr(data)?;
        addrs.push(addr);
        i += 1;
        proof {
            assert(addr_views(addrs@) =~= before.push(addr@));
            let rest = items(item, contents(*data), (count - i) as nat);
            if rest is Ok {
                assert(before + (seq![addr@] + rest->Ok_0.0) =~= before.push(addr@)
                    + rest->Ok_0.0);
            }
        }
    }
    assert(addr_views(addrs@) + Seq::empty() =~= addr_views(addrs@));
    Ok(addrs)
}

fn decode_multipaths(data: &mut Bytes, count: u32) -> (paths: Result<Vec<Vec<SocketAddr>>>)
    ensures
        match items(|s: Seq<u8>| multipath_item(s), contents(*old(data)), count as nat) {
            Ok((expected, rest)) => paths is Ok && path_views(paths->Ok_0@) == expected && contents(
                *final(data),
            ) == rest,
            Err(error) => paths is Err && paths->Err_0@ == error,
        },
{
    let ghost item = |s: Seq<u8>| multipath_item(s);
    let ghost all = items(item, contents(*data), count as nat);
    let mut paths: Vec<Vec<SocketAddr>> = Vec::new();
    let mut i: u32 = 0;
    assert(path_views(paths@) =~= Seq::empty());
    assert(all == behind(path_views(paths@), all)) by {
        if all is Ok {
            assert(Seq::empty() + all->Ok_0.0 =~= all->Ok_0.0);
        }
    }
    while i < count
        invariant
            i <= count,
            item == (|s: Seq<u8>| multipath_item(s)),
            all == items(item, contents(*old(data)), count as nat),
            all == behind(
                path_views(paths@),
                items(item, contents(*data), (count - i) as nat),
            ),
        decreases count - i,
    {
        let ghost before = path_views(paths@);
        let addrs = decode_multipath(data)?;
        let ghost views = addr_views(addrs@);
        paths.push(addrs);
        i += 1;
        proof {
            assert(path_views(paths@) =~= before.push(views));
            let rest = items(item, contents(*data), (count - i) as nat);
            if rest is Ok {
                assert(before + (seq![views] + rest->Ok_0.0) =~= before.push(views)
                    + rest->Ok_0.0);
            }
        }
    }
    assert(path_views(paths@) + Seq::empty() =~= path_views(paths@));
    Ok(paths)
}

fn take_words(data: &mut Bytes, count: u32) -> (words: Vec<u32>)
    requires
        contents(*old(data)).len() >= 4 * count,
    ensures
        words@ == word_list(contents(*old(data)), count as nat),
        contents(*final(data)) == contents(*old(data)).skip(4 * count),
{
    let ghost s = contents(*data);
    let mut words: Vec<u32> = Vec::new();
    let mut i: u32 = 0;
    assert(s.skip(0) =~= s);
    while i < count
        invariant
            i <= count,
            s == contents(*old(data)),
            s.len() >= 4 * count,
            contents(*data) == s.skip(4 * i),
            words@.len() == i,
            forall|k: int| 0 <= k < i ==> #[trigger] words@[k] == word(s.skip(4 * k)),
        decreases count - i,
    {
        words.push(get_u32(data));
        assert(s.skip(4 * i).skip(4) =~= s.skip(4 * (i + 1)));
        i += 1;
    }
    assert(words@ =~= word_list(s, count as nat));
    words
}

fn decode_ds_addr_body(body: &mut Bytes) -> (device: Result<DeviceInfo>)
    ensures
        match ds_addr_body(contents(*old(body))) {
            Ok(expected) => device is Ok && device->Ok_0.stripe_indices@ == expected.stripe_indices
                && path_views(device->Ok_0.ds_addrs@) == expected.ds_addrs,
            Err(error) => device is Err && device->Err_0@ == error,
        },
{
    if remaining(body) < 4 {
        return Err(xdr_error("GETDEVICEINFO stripe_indices length truncated"));
    }
    let num_indices: u32 = get_u32(body);
    if num_indices > 4096 {
        return Err(
            NfsError::Xdr(
                around_number(
                    "GETDEVICEINFO has ",
                    num_indices as u64,
                    " stripe_indices, max 4096",
                ),
            ),
        );
    }
    if remaining(body) < num_indices as usize * 4 {
        return Err(xdr_error("GETDEVICEINFO stripe_indices data truncated"));
    }
    let stripe_indices = take_words(body, num_indices);
    if remaining(body) < 4 {
        return Err(xdr_error("GETDEVICEINFO multipath_ds_list length truncated"));
    }
    let num_ds: u32 = get_u32(body);
    if num_ds > 4096 {
        return Err(
            NfsError::Xdr(
                around_number("GETDEVICEINFO has ", num_ds as u64, " data servers, max 4096"),
            ),
        );
    }
    let ds_addrs = decode_multipaths(body, num_ds)?;
    Ok(DeviceInfo { stripe_indices, ds_addrs })
}

/// Decodes the result of GETDEVICEINFO for a files layout behind its status.
pub fn decode_getdeviceinfo_response(data: &mut Bytes) -> (device: Result<DeviceInfo>)
    ensures
        match getdeviceinfo_response(contents(*old(data))) {
            Ok((expected, rest)) => device is Ok && device->Ok_0.stripe_indices@
                == expected.stripe_indices && path_views(device->Ok_0.ds_addrs@)
                == expected.ds_addrs && contents(*final(data)) == rest,
            Err(error) => device is Err && device->Err_0@ == error,
        },
{
    if remaining(data) < 4 {
        return Err(xdr_error("GETDEVICEINFO layout_type truncated"));
    }
    let layout_type: u32 = get_u32(data);
    if layout_type != 1 {
        return Err(
            NfsError::Xdr(
                with_number("GETDEVICEINFO unsupported layout type: ", layout_type as u64),
            ),
        );
    }
    let mut body = take_counted(
        data,
        "GETDEVICEINFO da_addr_body length truncated",
        "GETDEVICEINFO da_addr_body truncated",
    )?;
    decode_ds_addr_body(&mut body)
}

/// A layout4 as a server writes it: where it starts, how long it is, the mode, the type and
/// the content.
pub open spec fn written_segment(
    offset: u64,
    length: u64,
    iomode: u32,
    layout_type: u32,
    content: Seq<u8>,
) -> Seq<u8> {
    be64(offset) + (be64(length) + (be32(iomode) + (be32(layout_type) + opaque(content))))
}

/// Parts one after the other.
pub open spec fn in_a_row(parts: Seq<Seq<u8>>) -> Seq<u8>
    decreases parts.len(),
{
    if parts.len() == 0 {
        Seq::empty()
    } else {
        parts[0] + in_a_row(parts.drop_first())
    }
}

/// Items that are each read back whatever follows them are read back in a row.
pub proof fn lemma_items_in_a_row<T>(
    item: spec_fn(Seq<u8>) -> Parsed<T>,
    values: Seq<T>,
    parts: Seq<Seq<u8>>,
    tail: Seq<u8>,
)
    requires
        values.len() == parts.len(),
        forall|i: int, after: Seq<u8>|
            0 <= i < parts.len() ==> #[trigger] item(parts[i] + after) == Ok::<
                (T, Seq<u8>),
                ErrorView,
            >((values[i], after)),
    ensures
        items(item, in_a_row(parts) + tail, parts.len()) == Ok::<(Seq<T>, Seq<u8>), ErrorView>(
            (values, tail),
        ),
    decreases parts.len(),
{
    if parts.len() == 0 {
        assert(in_a_row(parts) + tail =~= tail);
        assert(values =~= Seq::empty());
    } else {
        let others = parts.drop_first();
        let after = in_a_row(others) + tail;
        assert(in_a_row(parts) + tail =~= parts[0] + after);
        assert forall|i: int, after: Seq<u8>| 0 <= i < others.len() implies #[trigger] item(
            others[i] + after,
        ) == Ok::<(T, Seq<u8>), ErrorView>((values.drop_first()[i], after)) by {
            assert(others[i] == parts[i + 1]);
            assert(item(parts[i + 1] + after) == Ok::<(T, Seq<u8>), ErrorView>(
                (values[i + 1], after),
            ));
        }
        lemma_items_in_a_row(item, values.drop_first(), others, tail);
        assert(item(parts[0] + after) == Ok::<(T, Seq<u8>), ErrorView>((values[0], after)));
        assert(seq![values[0]] + values.drop_first() =~= values);
    }
}

/// The content of a files layout as a server writes it.
pub open spec fn written_files(
    device_id: Seq<u8>,
    util: u32,
    first_stripe_index: u32,
    pattern_offset: u64,
    fh_list: Seq<Seq<u8>>,
) -> Seq<u8> {
    device_id + (be32(util) + (be32(first_stripe_index) + (be64(pattern_offset) + (be32(
        fh_list.len() as u32,
    ) + in_a_row(fh_list.map_values(|fh: Seq<u8>| opaque(fh)))))))
}

/// The content of a files layout is read back as it was written: the device, the stripe unit
/// in the low thirty bits, the density in the bit above them, the stripe that comes first, the
/// offset of the pattern and the handles in their order.
pub proof fn law_written_files_layout_is_read_back(
    device_id: Seq<u8>,
    stripe_unit: u32,
    is_dense: bool,
    top: bool,
    first_stripe_index: u32,
    pattern_offset: u64,
    fh_list: Seq<Seq<u8>>,
)
    requires
        device_id.len() == 16,
        stripe_unit < 0x4000_0000,
        fh_list.len() <= 4096,
        forall|i: int| 0 <= i < fh_list.len() ==> (#[trigger] fh_list[i]).len() <= u32::MAX,
    ensures
        ({
            let util = (stripe_unit + (if is_dense {
                0x4000_0000int
            } else {
                0
            }) + (if top {
                0x8000_0000int
            } else {
                0
            })) as u32;
            files_layout(
                written_files(device_id, util, first_stripe_index, pattern_offset, fh_list),
            ) == Ok::<ContentView, ErrorView>(
                ContentView::Files {
                    device_id,
                    stripe_unit,
                    is_dense,
                    first_stripe_index,
                    pattern_offset,
                    fh_list,
                },
            )
        }),
{
    broadcast use crate::wire::group_front;

    let util = (stripe_unit + (if is_dense {
        0x4000_0000int
    } else {
        0
    }) + (if top {
        0x8000_0000int
    } else {
        0
    })) as u32;
    assert(util & 0x3fff_ffff == stripe_unit && (util & 0x4000_0000 != 0) == is_dense) by (
        bit_vector)
        requires
            stripe_unit < 0x4000_0000u32,
            is_dense && top ==> util == stripe_unit + 0x4000_0000u32 + 0x8000_0000u32,
            is_dense && !top ==> util == stripe_unit + 0x4000_0000u32,
            !is_dense && top ==> util == stripe_unit + 0x8000_0000u32,
            !is_dense && !top ==> util == stripe_unit,
    ;
    let parts = fh_list.map_values(|fh: Seq<u8>| opaque(fh));
    let item = |s: Seq<u8>| layout_fh(s);
    assert forall|i: int, after: Seq<u8>| 0 <= i < parts.len() implies #[trigger] item(
        parts[i] + after,
    ) == Ok::<(Seq<u8>, Seq<u8>), ErrorView>((fh_list[i], after)) by {
        assert(parts[i] == opaque(fh_list[i]));
    }
    lemma_items_in_a_row(item, fh_list, parts, Seq::empty());
    assert(in_a_row(parts) + Seq::<u8>::empty() =~= in_a_row(parts));
    let s = written_files(device_id, util, first_stripe_index, pattern_offset, fh_list);
    assert(s.skip(36) == in_a_row(parts));
}

/// The content of a layout4 that was written, by its type.
pub open spec fn written_content(layout_type: u32, content: Seq<u8>) -> Decoded<ContentView> {
    if layout_type == 2 || layout_type == 3 {
        Ok(ContentView::Opaque(content))
    } else {
        files_layout(content)
    }
}

/// A segment is read back with the offset, the length, the mode and the type that were
/// written, and with what its content holds, whatever follows it.
pub proof fn law_written_segment_is_read_back(
    offset: u64,
    length: u64,
    iomode: u32,
    layout_type: u32,
    content: Seq<u8>,
    tail: Seq<u8>,
)
    requires
        content.len() <= u32::MAX,
        written_content(layout_type, content) is Ok,
    ensures
        layout_segment(written_segment(offset, length, iomode, layout_type, content) + tail)
            == Ok::<(SegmentView, Seq<u8>), ErrorView>(
            (
                SegmentView {
                    offset,
                    length,
                    iomode: if iomode == 2 {
                        IoMode::ReadWrite
                    } else {
                        IoMode::Read
                    },
                    layout_type: if layout_type == 2 {
                        LayoutType::Osd2Objects
                    } else if layout_type == 3 {
                        LayoutType::BlockVolume
                    } else {
                        LayoutType::NfsV41Files
                    },
                    content: written_content(layout_type, content)->Ok_0,
                },
                tail,
            ),
        ),
{
    broadcast use crate::wire::group_front;

    let s = be64(offset) + (be64(length) + (be32(iomode) + (be32(layout_type) + (opaque(content)
        + tail))));
    assert(written_segment(offset, length, iomode, layout_type, content) + tail =~= s);
}

/// The result of LAYOUTGET as a server writes it: whether the layout goes back on CLOSE, the
/// stateid, and the segments behind how many they are.
pub open spec fn written_layout(
    return_on_close: bool,
    stateid: Seq<u8>,
    segments: Seq<WrittenSegment>,
) -> Seq<u8> {
    bool32(return_on_close) + (stateid + (be32(segments.len() as u32) + in_a_row(
        segments.map_values(
            |segment: WrittenSegment|
                written_segment(segment.0, segment.1, segment.2, segment.3, segment.4),
        ),
    )))
}

/// A written segment: the offset, the length, the mode, the type and the content.
pub type WrittenSegment = (u64, u64, u32, u32, Seq<u8>);

/// The result of LAYOUTGET is read back as it was written, segment by segment.
pub proof fn law_written_layout_is_read_back(
    return_on_close: bool,
    stateid: Seq<u8>,
    segments: Seq<WrittenSegment>,
    tail: Seq<u8>,
)
    requires
        stateid.len() == 16,
        segments.len() <= 1024,
        forall|i: int|
            0 <= i < segments.len() ==> {
                &&& (#[trigger] segments[i]).4.len() <= u32::MAX
                &&& written_content(segments[i].3, segments[i].4) is Ok
            },
    ensures
        layoutget_response(written_layout(return_on_close, stateid, segments) + tail) is Ok,
        ({
            let (layout, rest) = layoutget_response(
                written_layout(return_on_close, stateid, segments) + tail,
            )->Ok_0;
            &&& rest == tail
            &&& layout.return_on_close == return_on_close
            &&& layout.stateid == stateid
            &&& layout.segments.len() == segments.len()
            &&& forall|i: int|
                0 <= i < segments.len() ==> {
                    let (offset, length, iomode, layout_type, content) = segments[i];
                    &&& (#[trigger] layout.segments[i]).offset == offset
                    &&& layout.segments[i].length == length
                    &&& (layout.segments[i].iomode is ReadWrite <==> iomode == 2)
                    &&& (layout.segments[i].layout_type is Osd2Objects <==> layout_type == 2)
                    &&& (layout.segments[i].layout_type is BlockVolume <==> layout_type == 3)
                    &&& layout.segments[i].content == written_content(layout_type, content)->Ok_0
                }
        }),
{
    let parts = segments.map_values(
        |segment: WrittenSegment|
            written_segment(segment.0, segment.1, segment.2, segment.3, segment.4),
    );
    let values = segments.map_values(|segment: WrittenSegment| segment_of(segment));
    lemma_written_segments(segments, tail);
    lemma_layout_head(return_on_close, stateid, segments.len() as u32, in_a_row(parts), tail);
    let s = written_layout(return_on_close, stateid, segments) + tail;
    assert(layoutget_response(s) == Ok::<(LayoutView, Seq<u8>), ErrorView>(
        (LayoutView { generation: 0, stateid, return_on_close, segments: values }, tail),
    ));
}

/// The segment that a written one stands for.
pub open spec fn segment_of(segment: WrittenSegment) -> SegmentView {
    SegmentView {
        offset: segment.0,
        length: segment.1,
        iomode: if segment.2 == 2 {
            IoMode::ReadWrite
        } else {
            IoMode::Read
        },
        layout_type: if segment.3 == 2 {
            LayoutType::Osd2Objects
        } else if segment.3 == 3 {
            LayoutType::BlockVolume
        } else {
            LayoutType::NfsV41Files
        },
        content: written_content(segment.3, segment.4)->Ok_0,
    }
}

proof fn lemma_written_segments(segments: Seq<WrittenSegment>, tail: Seq<u8>)
    requires
        forall|i: int|
            0 <= i < segments.len() ==> {
                &&& (#[trigger] segments[i]).4.len() <= u32::MAX
                &&& written_content(segments[i].3, segments[i].4) is Ok
            },
    ensures
        items(
            |s: Seq<u8>| layout_segment(s),
            in_a_row(
                segments.map_values(
                    |segment: WrittenSegment|
                        written_segment(segment.0, segment.1, segment.2, segment.3, segment.4),
                ),
            ) + tail,
            segments.len(),
        ) == Ok::<(Seq<SegmentView>, Seq<u8>), ErrorView>(
            (segments.map_values(|segment: WrittenSegment| segment_of(segment)), tail),
        ),
{
    let parts = segments.map_values(
        |segment: WrittenSegment|
            written_segment(segment.0, segment.1, segment.2, segment.3, segment.4),
    );
    let values = segments.map_values(|segment: WrittenSegment| segment_of(segment));
    let item = |s: Seq<u8>| layout_segment(s);
    assert forall|i: int, after: Seq<u8>| 0 <= i < parts.len() implies #[trigger] item(
        parts[i] + after,
    ) == Ok::<(SegmentView, Seq<u8>), ErrorView>((values[i], after)) by {
        let (offset, length, iomode, layout_type, content) = segments[i];
        law_written_segment_is_read_back(offset, length, iomode, layout_type, content, after);
    }
    lemma_items_in_a_row(item, values, parts, tail);
}

proof fn lemma_layout_head(
    return_on_close: bool,
    stateid: Seq<u8>,
    count: u32,
    body: Seq<u8>,
    tail: Seq<u8>,
)
    requires
        stateid.len() == 16,
    ensures
        ({
            let s = bool32(return_on_close) + (stateid + (be32(count) + body)) + tail;
            &&& s.len() >= 24
            &&& (word(s) != 0) == return_on_close
            &&& s.skip(4).take(16) == stateid
            &&& word(s.skip(20)) == count
            &&& s.skip(24) == body + tail
        }),
{
    broadcast use crate::wire::group_front;

    crate::wire::lemma_regroup(bool32(return_on_close), stateid + (be32(count) + body), tail);
    crate::wire::lemma_regroup(stateid, be32(count) + body, tail);
    crate::wire::lemma_regroup(be32(count), body, tail);
}

/// A segment covers just the bytes from its offset on, as many as its length says; one whose
/// length is the largest number, or leads past it, covers all that follow.
pub proof fn law_segment_covers_its_range(segment: SegmentView, offset: u64)
    ensures
        offset < segment.offset ==> !segment.covers(offset),
        segment.length > 0 ==> segment.covers(segment.offset),
        segment.length == 0 ==> !segment.covers(offset),
        segment.length == u64::MAX ==> (segment.covers(offset) <==> segment.offset <= offset),
        segment.offset + segment.length > u64::MAX ==> segment.covers(u64::MAX),
        segment.offset + segment.length <= u64::MAX && segment.length < u64::MAX ==> {
            &&& !segment.covers((segment.offset + segment.length) as u64)
            &&& segment.length > 0 ==> segment.covers(
                (segment.offset + segment.length - 1) as u64,
            )
        },
{
}

/// Where a segment covers a byte, it covers all bytes from its offset up to that one.
pub proof fn law_segment_has_no_gaps(segment: SegmentView, a: u64, b: u64)
    requires
        segment.covers(b),
        segment.offset <= a <= b,
    ensures
        segment.covers(a),
{
}

/// Two segments that are not empty overlap just where some byte below the largest number is in
/// both.
pub proof fn law_overlapping_segments_share_a_byte(a: SegmentView, b: SegmentView)
    requires
        a.length > 0,
        b.length > 0,
    ensures
        a.overlaps(b) <==> exists|byte: u64|
            byte < u64::MAX && #[trigger] a.covers(byte) && b.covers(byte),
        a.overlaps(b) == b.overlaps(a),
{
    if a.overlaps(b) {
        let byte = if a.offset < b.offset {
            b.offset
        } else {
            a.offset
        };
        assert(byte < u64::MAX && a.covers(byte) && b.covers(byte));
    }
}

/// The types and the modes of layouts are read back from their numbers.
pub proof fn law_layout_numbers_are_read_back(layout_type: LayoutType, iomode: IoMode)
    ensures
        layout_type_of(layout_type.spec_number()) == layout_type,
        iomode_of(iomode.spec_number()) == iomode,
        LayoutType::NfsV41Files.spec_number() == 1,
        IoMode::ReadWrite.spec_number() == 2,
        layout_type.spec_number() <= 3,
        1 <= iomode.spec_number() <= 2,
{
}

/// A data server counts as out of reach where the network says so: it refused, the host or the
/// network cannot be reached, or it did not answer in time.
pub proof fn law_unreachable_is_said_by_the_network(kind: IoErrorKind, error: NfsError)
    ensures
        unreachable_error(NfsError::Io(IoErrorKind::ConnectionRefused)),
        unreachable_error(NfsError::Io(IoErrorKind::HostUnreachable)),
        unreachable_error(NfsError::Io(IoErrorKind::NetworkUnreachable)),
        unreachable_error(NfsError::Io(IoErrorKind::TimedOut)),
        !(error is Io) ==> !unreachable_error(error),
{
}


} // verus!
