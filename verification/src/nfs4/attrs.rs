//! File attributes (RFC 7530 §5): the fattr4 envelope, and the attributes that name and
//! protect a file.

use bytes::Bytes;
use vstd::prelude::*;
use vstd::utf8::encode_utf8;

use crate::buffer::{advance, contents, from_vec, get_u32, get_u64, prefix, remaining};
use crate::error::{ErrorView, NfsError, Result};
use crate::nfs4::compound::{chain, Decoded, Parsed};
use crate::text::{around_number, concat2, decimal, push_decimal, with_number};
use crate::wire::{holds, lemma_listed_word, Fields};
use crate::xdr::{
    be32, be64, bitmap4, hyper, opaque, padded, padded_len, word, words, xdr_string, xdr_u32, xdr_u64,
};

verus! {

pub const FATTR4_TYPE: u32 = 1;

pub const FATTR4_CHANGE: u32 = 3;

pub const FATTR4_SIZE: u32 = 4;

pub const FATTR4_FSID: u32 = 8;

pub const FATTR4_FILEHANDLE: u32 = 19;

pub const FATTR4_FILEID: u32 = 20;

pub const FATTR4_MODE: u32 = 33;

pub const FATTR4_NUMLINKS: u32 = 35;

pub const FATTR4_OWNER: u32 = 36;

pub const FATTR4_OWNER_GROUP: u32 = 37;

pub const FATTR4_RAWDEV: u32 = 41;

pub const FATTR4_SPACE_USED: u32 = 45;

pub const FATTR4_TIME_ACCESS: u32 = 47;

pub const FATTR4_TIME_METADATA: u32 = 52;

pub const FATTR4_TIME_MODIFY: u32 = 53;

/// A point in time or a span.
#[derive(Clone, Copy, Debug, PartialEq, Eq, Structural)]
pub struct Time {
    pub seconds: u32,
    pub nseconds: u32,
}

/// Whether a bitmap holds an attribute.
pub open spec fn holds_attr(bitmap: Seq<u32>, attr: u32) -> bool {
    attr / 32 < bitmap.len() && bitmap[attr as int / 32] & (1u32 << (attr % 32)) != 0
}

/// Whether a bitmap holds an attribute.
pub fn fattr4_has(bitmap: &[u32], attr: u32) -> (result: bool)
    ensures
        result == holds_attr(bitmap@, attr),
{
    let index: usize = (attr / 32) as usize;
    if index >= bitmap.len() {
        return false;
    }
    let bit: u32 = attr % 32;
    bitmap[index] & (1u32 << bit) != 0
}

/// The attributes that are asked for when a file is looked up.
pub open spec fn standard_bitmap() -> Seq<u32> {
    seq![0x0018_011a, 0x0030_a23a]
}

/// The attributes that are asked for when a file is looked up: type, change, size, fsid,
/// filehandle and fileid; mode, numlinks, owner, owner_group, rawdev, space_used, time_access,
/// time_metadata and time_modify.
pub fn standard_getattr_bitmap() -> (bitmap: [u32; 2])
    ensures
        bitmap@ == standard_bitmap(),
{
    let bitmap: [u32; 2] = [0x0018_011a, 0x0030_a23a];
    assert(bitmap@ =~= standard_bitmap());
    bitmap
}

/// The words of a bitmap.
pub open spec fn bitmap_words(s: Seq<u8>, count: nat) -> Seq<u32> {
    Seq::new(count, |i: int| word(s.skip(4 * i)))
}

/// A fattr4: the bitmap of the attributes and their values.
pub open spec fn envelope(s: Seq<u8>, label: Seq<char>) -> Parsed<(Seq<u32>, Seq<u8>)> {
    let count = word(s);
    let rest = s.skip(4).skip(4 * count);
    if s.len() < 4 {
        Err(ErrorView::Xdr(label + " bitmap length truncated"@))
    } else if s.skip(4).len() < 4 * count {
        Err(ErrorView::Xdr(label + " bitmap truncated"@))
    } else if rest.len() < 4 {
        Err(ErrorView::Xdr(label + " values length truncated"@))
    } else if rest.skip(4).len() < padded(word(rest) as nat) {
        Err(ErrorView::Xdr(label + " values truncated"@))
    } else {
        Ok(
            (
                (bitmap_words(s.skip(4), count as nat), rest.skip(4).take(word(rest) as int)),
                rest.skip(4).skip(padded(word(rest) as nat) as int),
            ),
        )
    }
}

fn take_bitmap(data: &mut Bytes, count: u32) -> (words: Vec<u32>)
    requires
        contents(*old(data)).len() >= 4 * count,
    ensures
        words@ == bitmap_words(contents(*old(data)), count as nat),
        contents(*final(data)) == contents(*old(data)).skip(4 * count),
{
    let ghost s = contents(*data);
    let mut words: Vec<u32> = Vec::new();
    let mut i: u32 = 0;
    assert(s.skip(0) =~= s);
    while i < count
        invariant
            i <= count,
            s == contents(*old(data)),
            s.len() >= 4 * count,
            contents(*data) == s.skip(4 * i),
            words@.len() == i,
            forall|k: int| 0 <= k < i ==> #[trigger] words@[k] == word(s.skip(4 * k)),
        decreases count - i,
    {
        words.push(get_u32(data));
        assert(s.skip(4 * i).skip(4) =~= s.skip(4 * (i + 1)));
        i += 1;
    }
    assert(words@ =~= bitmap_words(s, count as nat));
    words
}

/// Reads a fattr4.
pub fn decode_fattr4_envelope(data: &mut Bytes, label: &str) -> (result: Result<(Vec<u32>, Bytes)>)
    ensures
        match envelope(contents(*old(data)), label@) {
            Ok(((bitmap, values), rest)) => result is Ok && result->Ok_0.0@ == bitmap && contents(
                result->Ok_0.1,
            ) == values && contents(*final(data)) == rest,
            Err(error) => result is Err && result->Err_0@ == error,
        },
{
    if remaining(data) < 4 {
        return Err(NfsError::Xdr(concat2(label, " bitmap length truncated")));
    }
    let count: u32 = get_u32(data);
    if (remaining(data) as u64) < count as u64 * 4 {
        return Err(NfsError::Xdr(concat2(label, " bitmap truncated")));
    }
    let bitmap = take_bitmap(data, count);
    if remaining(data) < 4 {
        return Err(NfsError::Xdr(concat2(label, " values length truncated")));
    }
    let len: u32 = get_u32(data);
    let padded: u64 = padded_len(len);
    if (remaining(data) as u64) < padded {
        return Err(NfsError::Xdr(concat2(label, " values truncated")));
    }
    let values = prefix(data, len as usize);
    advance(data, padded as usize);
    Ok((bitmap, values))
}

/// What is known of a file.
#[derive(Debug)]
pub struct Attr {
    pub fileid: u64,
    pub filehandle: Bytes,
    pub file_mode: u32,
}

/// What is known of a file, as specifications see it.
#[verifier::ext_equal]
pub struct AttrView {
    pub fileid: u64,
    pub filehandle: Seq<u8>,
    pub file_mode: u32,
}

impl View for Attr {
    type V = AttrView;

    open spec fn view(&self) -> AttrView {
        AttrView {
            fileid: self.fileid,
            filehandle: contents(self.filehandle),
            file_mode: self.file_mode,
        }
    }
}

/// How many bytes the value of an attribute takes; none for an attribute that is not known.
pub open spec fn fixed_size(attr: u32) -> Option<nat> {
    if attr == FATTR4_TYPE || attr == FATTR4_MODE || attr == FATTR4_NUMLINKS {
        Some(4)
    } else if attr == FATTR4_CHANGE || attr == FATTR4_SIZE || attr == FATTR4_FILEID || attr
        == FATTR4_RAWDEV || attr == FATTR4_SPACE_USED {
        Some(8)
    } else if attr == FATTR4_TIME_ACCESS || attr == FATTR4_TIME_METADATA || attr
        == FATTR4_TIME_MODIFY {
        Some(12)
    } else if attr == FATTR4_FSID {
        Some(16)
    } else {
        None
    }
}

/// Whether the value of an attribute is bytes with their length in front.
pub open spec fn is_opaque(attr: u32) -> bool {
    attr == FATTR4_FILEHANDLE || attr == FATTR4_OWNER || attr == FATTR4_OWNER_GROUP
}

/// How many bytes the value of an attribute takes here.
pub open spec fn value_size(attr: u32, s: Seq<u8>) -> Decoded<nat> {
    let truncated = ErrorView::Xdr("attribute "@ + decimal(attr as nat) + " truncated"@);
    if is_opaque(attr) {
        if s.len() < 4 || s.len() < 4 + padded(word(s) as nat) {
            Err(truncated)
        } else {
            Ok(4 + padded(word(s) as nat))
        }
    } else {
        match fixed_size(attr) {
            Some(size) => if s.len() < size {
                Err(truncated)
            } else {
                Ok(size)
            },
            None => Err(ErrorView::Xdr("unsupported attribute "@ + decimal(attr as nat))),
        }
    }
}

/// What is known of a file once the value of an attribute was read.
pub open spec fn with_value(known: AttrView, attr: u32, s: Seq<u8>) -> AttrView {
    if attr == FATTR4_FILEID {
        AttrView { fileid: hyper(s), ..known }
    } else if attr == FATTR4_FILEHANDLE {
        AttrView { filehandle: s.skip(4).take(word(s) as int), ..known }
    } else if attr == FATTR4_MODE {
        AttrView { file_mode: word(s), ..known }
    } else {
        known
    }
}

/// What the values of the attributes from `attr` on say of a file.
pub open spec fn attr_values(bitmap: Seq<u32>, s: Seq<u8>, attr: nat, known: AttrView) -> Decoded<
    AttrView,
>
    decreases 32 * bitmap.len() - attr,
{
    if attr >= 32 * bitmap.len() || attr > u32::MAX {
        Ok(known)
    } else if !holds_attr(bitmap, attr as u32) {
        attr_values(bitmap, s, attr + 1, known)
    } else {
        match value_size(attr as u32, s) {
            Err(error) => Err(error),
            Ok(size) => attr_values(
                bitmap,
                s.skip(size as int),
                attr + 1,
                with_value(known, attr as u32, s),
            ),
        }
    }
}

/// What is known of a file before any attribute is.
pub open spec fn no_attrs() -> AttrView {
    AttrView { fileid: 0, filehandle: Seq::empty(), file_mode: 0 }
}

/// What a fattr4 says of a file.
pub open spec fn file_attrs(s: Seq<u8>) -> Parsed<AttrView> {
    chain(
        envelope(s, "fattr4"@),
        |found: (Seq<u32>, Seq<u8>), rest: Seq<u8>|
            match attr_values(found.0, found.1, 0, no_attrs()) {
                Ok(attr) => Ok::<(AttrView, Seq<u8>), ErrorView>((attr, rest)),
                Err(error) => Err(error),
            },
    )
}

fn truncated_attr(attr: u32) -> (error: NfsError)
    ensures
        error@ == ErrorView::Xdr("attribute "@ + decimal(attr as nat) + " truncated"@),
{
    NfsError::Xdr(around_number("attribute ", attr as u64, " truncated"))
}

fn take_value(values: &mut Bytes, attr: u32, known: Attr) -> (result: Result<Attr>)
    ensures
        match value_size(attr, contents(*old(values))) {
            Ok(size) => result is Ok && result->Ok_0@ == with_value(
                known@,
                attr,
                contents(*old(values)),
            ) && contents(*final(values)) == contents(*old(values)).skip(size as int),
            Err(error) => result is Err && result->Err_0@ == error,
        },
{
    let ghost s = contents(*values);
    let mut known = known;
    if attr == FATTR4_FILEHANDLE || attr == FATTR4_OWNER || attr == FATTR4_OWNER_GROUP {
        if remaining(values) < 4 {
            return Err(truncated_attr(attr));
        }
        let len: u32 = get_u32(values);
        let padded: u64 = padded_len(len);
        if (remaining(values) as u64) < padded {
            return Err(truncated_attr(attr));
        }
        let value = prefix(values, len as usize);
        advance(values, padded as usize);
        assert(s.skip(4).skip(padded as int) =~= s.skip(4 + padded as int));
        if attr == FATTR4_FILEHANDLE {
            known.filehandle = value;
        }
        return Ok(known);
    }
    let size: usize = match attr {
        FATTR4_TYPE | FATTR4_MODE | FATTR4_NUMLINKS => 4,
        FATTR4_CHANGE | FATTR4_SIZE | FATTR4_FILEID | FATTR4_RAWDEV | FATTR4_SPACE_USED => 8,
        FATTR4_TIME_ACCESS | FATTR4_TIME_METADATA | FATTR4_TIME_MODIFY => 12,
        FATTR4_FSID => 16,
        _ => {
            return Err(NfsError::Xdr(with_number("unsupported attribute ", attr as u64)));
        },
    };
    if remaining(values) < size {
        return Err(truncated_attr(attr));
    }
    if attr == FATTR4_FILEID {
        known.fileid = get_u64(values);
    } else if attr == FATTR4_MODE {
        known.file_mode = get_u32(values);
    } else {
        advance(values, size);
    }
    Ok(known)
}

fn decode_values(bitmap: &Vec<u32>, values: &mut Bytes) -> (attr: Result<Attr>)
    ensures
        match attr_values(bitmap@, contents(*old(values)), 0, no_attrs()) {
            Ok(expected) => attr is Ok && attr->Ok_0@ == expected,
            Err(error) => attr is Err && attr->Err_0@ == error,
        },
{
    let ghost all = attr_values(bitmap@, contents(*values), 0, no_attrs());
    let mut known = Attr { fileid: 0, filehandle: from_vec(Vec::new()), file_mode: 0 };
    assert(known@ =~= no_attrs());
    let words: u64 = if bitmap.len() as u64 > 0x0800_0000 { 0x0800_0000 } else { bitmap.len() as u64 };
    let end: u64 = words * 32;
    let mut attr: u64 = 0;
    while attr < end
        invariant
            attr <= end <= 0x1_0000_0000,
            end == 32 * bitmap@.len() || (end == 0x1_0000_0000 && end <= 32 * bitmap@.len()),
            all == attr_values(bitmap@, contents(*old(values)), 0, no_attrs()),
            all == attr_values(bitmap@, contents(*values), attr as nat, known@),
        decreases end - attr,
    {
        if fattr4_has(bitmap, attr as u32) {
            known = take_value(values, attr as u32, known)?;
        }
        attr += 1;
    }
    Ok(known)
}


/// Reads what a fattr4 says of a file.
pub fn decode_getattr_response(data: &mut Bytes) -> (attr: Result<Attr>)
    ensures
        match file_attrs(contents(*old(data))) {
            Ok((expected, rest)) => attr is Ok && attr->Ok_0@ == expected && contents(*final(data))
                == rest,
            Err(error) => attr is Err && attr->Err_0@ == error,
        },
{
    let (bitmap, mut values) = decode_fattr4_envelope(data, "fattr4")?;
    decode_values(&bitmap, &mut values)
}

/// What a SETATTR changes; what is absent stays as it is.
#[derive(Clone, Copy, Debug, PartialEq, Eq, Structural)]
pub struct NewAttrs {
    pub mode: Option<u32>,
    pub uid: Option<u32>,
    pub gid: Option<u32>,
    pub size: Option<u64>,
    pub atime: Option<Time>,
    pub mtime: Option<Time>,
}

/// A bit of a bitmap word that is set if an attribute is there.
pub open spec fn present<T>(value: Option<T>, bit: u32) -> int {
    if value is Some {
        bit as int
    } else {
        0
    }
}

/// The attributes that a SETATTR changes, as a bitmap that ends with the last word in use.
pub open spec fn set_bitmap(attrs: NewAttrs) -> Seq<u32> {
    let low = present(attrs.size, 0x10) as u32;
    let high = (present(attrs.mode, 0x2) + present(attrs.uid, 0x10) + present(attrs.gid, 0x20)
        + present(attrs.atime, 0x1_0000) + present(attrs.mtime, 0x40_0000)) as u32;
    if high != 0 {
        seq![low, high]
    } else if low != 0 {
        seq![low]
    } else {
        Seq::empty()
    }
}

/// An owner on the wire: its number in base ten.
pub open spec fn owner_value(id: Option<u32>) -> Seq<u8> {
    match id {
        Some(id) => opaque(encode_utf8(decimal(id as nat))),
        None => Seq::empty(),
    }
}

/// A time that the client chose.
pub open spec fn time_value(time: Option<Time>) -> Seq<u8> {
    match time {
        Some(time) => be32(1) + be64(time.seconds as u64) + be32(time.nseconds),
        None => Seq::empty(),
    }
}

/// The values of the attributes that a SETATTR changes, in the order of their numbers.
pub open spec fn set_values(attrs: NewAttrs) -> Seq<u8> {
    (match attrs.size {
        Some(size) => be64(size),
        None => Seq::empty(),
    }) + (match attrs.mode {
        Some(mode) => be32(mode),
        None => Seq::empty(),
    }) + owner_value(attrs.uid) + owner_value(attrs.gid) + time_value(attrs.atime) + time_value(
        attrs.mtime,
    )
}

fn put_owner(values: &mut Vec<u8>, id: Option<u32>)
    ensures
        final(values)@ == old(values)@ + owner_value(id),
{
    if let Some(id) = id {
        let mut text = String::new();
        push_decimal(&mut text, id as u64);
        assert(text@ =~= decimal(id as nat));
        xdr_string(values, text.as_str());
    }
    assert(values@ =~= old(values)@ + owner_value(id));
}

fn put_time(values: &mut Vec<u8>, time: Option<Time>)
    ensures
        final(values)@ == old(values)@ + time_value(time),
{
    if let Some(time) = time {
        xdr_u32(values, 1);
        xdr_u64(values, time.seconds as u64);
        xdr_u32(values, time.nseconds);
    }
    assert(values@ =~= old(values)@ + time_value(time));
}

/// Writes the attributes that a SETATTR changes.
pub fn encode_setattr(
    mode: Option<u32>,
    uid: Option<u32>,
    gid: Option<u32>,
    size: Option<u64>,
    atime: Option<Time>,
    mtime: Option<Time>,
) -> (encoded: (Vec<u32>, Vec<u8>))
    ensures
        encoded.0@ == set_bitmap(NewAttrs { mode, uid, gid, size, atime, mtime }),
        encoded.1@ == set_values(NewAttrs { mode, uid, gid, size, atime, mtime }),
{
    let ghost attrs = NewAttrs { mode, uid, gid, size, atime, mtime };
    let mut values: Vec<u8> = Vec::new();
    let mut low: u32 = 0;
    let mut high: u32 = 0;
    if let Some(size) = size {
        low = 0x10;
        xdr_u64(&mut values, size);
    }
    if let Some(mode) = mode {
        high = 0x2;
        xdr_u32(&mut values, mode);
    }
    put_owner(&mut values, uid);
    put_owner(&mut values, gid);
    put_time(&mut values, atime);
    put_time(&mut values, mtime);
    if uid.is_some() {
        high = high + 0x10;
    }
    if gid.is_some() {
        high = high + 0x20;
    }
    if atime.is_some() {
        high = high + 0x1_0000;
    }
    if mtime.is_some() {
        high = high + 0x40_0000;
    }
    let mut bitmap: Vec<u32> = Vec::new();
    if high != 0 {
        bitmap.push(low);
        bitmap.push(high);
    } else if low != 0 {
        bitmap.push(low);
    }
    assert(bitmap@ =~= set_bitmap(attrs));
    assert(values@ =~= set_values(attrs));
    (bitmap, values)
}

/// A bitmap holds an attribute where the bit with its number is set, counted from the lowest
/// bit of the first word on.
pub proof fn law_attribute_is_a_bit(bitmap: Seq<u32>, attr: u32)
    ensures
        holds_attr(bitmap, attr) <==> attr < 32 * bitmap.len() && (bitmap[attr as int / 32] >> (attr
            % 32)) % 2 == 1,
{
    let word = bitmap[attr as int / 32];
    let bit = attr % 32;
    assert((word & (1u32 << bit) != 0) == ((word >> bit) % 2 == 1)) by (bit_vector)
        requires
            bit < 32,
    ;
}

/// The standard attributes are the type, the change, the size, the file system, the handle, the
/// file ID, the mode, the number of links, the owner and the group, the device, the space used
/// and the three times, and no others.
pub proof fn law_standard_attributes(attr: u32)
    ensures
        holds_attr(standard_bitmap(), attr) <==> seq![
            1u32,
            3,
            4,
            8,
            19,
            20,
            33,
            35,
            36,
            37,
            41,
            45,
            47,
            52,
            53,
        ].contains(attr),
{
    let list = seq![1u32, 3, 4, 8, 19, 20, 33, 35, 36, 37, 41, 45, 47, 52, 53];
    let bit = attr % 32;
    assert((0x0018_011au32 & (1u32 << bit) != 0) == (bit == 1 || bit == 3 || bit == 4 || bit == 8
        || bit == 19 || bit == 20)) by (bit_vector)
        requires
            bit < 32,
    ;
    assert((0x0030_a23au32 & (1u32 << bit) != 0) == (bit == 1 || bit == 3 || bit == 4 || bit == 5
        || bit == 9 || bit == 13 || bit == 15 || bit == 20 || bit == 21)) by (bit_vector)
        requires
            bit < 32,
    ;
    assert(list[0] == 1 && list[1] == 3 && list[2] == 4 && list[3] == 8 && list[4] == 19 && list[5]
        == 20 && list[6] == 33 && list[7] == 35 && list[8] == 36 && list[9] == 37 && list[10] == 41
        && list[11] == 45 && list[12] == 47 && list[13] == 52 && list[14] == 53);
}

/// The bitmap of what is to be set holds the size, the mode, the owner, the group and the two
/// times just where they are given, and nothing else; it has no empty word at its end.
pub proof fn law_set_bitmap_holds_what_is_given(attrs: NewAttrs, attr: u32)
    ensures
        holds_attr(set_bitmap(attrs), attr) <==> {
            ||| attr == 4 && attrs.size is Some
            ||| attr == 33 && attrs.mode is Some
            ||| attr == 36 && attrs.uid is Some
            ||| attr == 37 && attrs.gid is Some
            ||| attr == 48 && attrs.atime is Some
            ||| attr == 54 && attrs.mtime is Some
        },
        set_bitmap(attrs).len() > 0 ==> set_bitmap(attrs).last() != 0,
{
    let (s, m, u) = (attrs.size is Some, attrs.mode is Some, attrs.uid is Some);
    let (g, a, t) = (attrs.gid is Some, attrs.atime is Some, attrs.mtime is Some);
    let low: u32 = if s {
        0x10
    } else {
        0
    };
    let high = (present(attrs.mode, 0x2) + present(attrs.uid, 0x10) + present(attrs.gid, 0x20)
        + present(attrs.atime, 0x1_0000) + present(attrs.mtime, 0x40_0000)) as u32;
    let bit = attr % 32;
    assert((low & (1u32 << bit) != 0) == (bit == 4 && s)) by (bit_vector)
        requires
            bit < 32,
            low == (if s {
                0x10u32
            } else {
                0u32
            }),
    ;
    let m2: u32 = if m {
        0x2
    } else {
        0
    };
    let u2: u32 = if u {
        0x10
    } else {
        0
    };
    let g2: u32 = if g {
        0x20
    } else {
        0
    };
    let a2: u32 = if a {
        0x1_0000
    } else {
        0
    };
    let t2: u32 = if t {
        0x40_0000
    } else {
        0
    };
    assert(high == m2 + u2 + g2 + a2 + t2);
    assert((high & (1u32 << bit) != 0) == (bit == 1 && m || bit == 4 && u || bit == 5 && g || bit
        == 16 && a || bit == 22 && t)) by (bit_vector)
        requires
            bit < 32,
            high == m2 + u2 + g2 + a2 + t2,
            m2 == (if m {
                0x2u32
            } else {
                0u32
            }),
            u2 == (if u {
                0x10u32
            } else {
                0u32
            }),
            g2 == (if g {
                0x20u32
            } else {
                0u32
            }),
            a2 == (if a {
                0x1_0000u32
            } else {
                0u32
            }),
            t2 == (if t {
                0x40_0000u32
            } else {
                0u32
            }),
    ;
    assert(0u32 & (1u32 << bit) == 0) by (bit_vector);
}

/// The fields with one more for a value that is given.
pub open spec fn with_size(fields: Fields, size: Option<u64>) -> Fields {
    match size {
        Some(size) => fields.hyper(size),
        None => fields,
    }
}

pub open spec fn with_mode(fields: Fields, mode: Option<u32>) -> Fields {
    match mode {
        Some(mode) => fields.word(mode),
        None => fields,
    }
}

pub open spec fn with_id(fields: Fields, id: Option<u32>) -> Fields {
    match id {
        Some(id) => fields.counted(encode_utf8(decimal(id as nat))),
        None => fields,
    }
}

pub open spec fn with_time(fields: Fields, time: Option<Time>) -> Fields {
    match time {
        Some(time) => fields.word(1).hyper(time.seconds as u64).word(time.nseconds),
        None => fields,
    }
}

proof fn lemma_id_joins(s: Seq<u8>, fields: Fields, id: Option<u32>)
    requires
        holds(s, fields),
        id is Some ==> encode_utf8(decimal(id->Some_0 as nat)).len() <= u32::MAX,
    ensures
        holds(s + owner_value(id), with_id(fields, id)),
{
    broadcast use crate::wire::group_fields;

    if id is None {
        assert(s + owner_value(id) =~= s);
    }
}

proof fn lemma_time_joins(s: Seq<u8>, fields: Fields, time: Option<Time>)
    requires
        holds(s, fields),
    ensures
        holds(s + time_value(time), with_time(fields, time)),
{
    broadcast use crate::wire::group_fields;

    match time {
        None => {
            assert(s + time_value(time) =~= s);
        },
        Some(given) => {
            assert(s + time_value(time) =~= s + be32(1) + be64(given.seconds as u64) + be32(
                given.nseconds,
            ));
        },
    }
}

/// The values of what is to be set stand in the order of their numbers: the size, the mode, the
/// owner and the group as text, and the times as the client gives them.
pub proof fn law_set_values_hold_what_is_given(attrs: NewAttrs)
    requires
        attrs.uid is Some ==> encode_utf8(decimal(attrs.uid->Some_0 as nat)).len() <= u32::MAX,
        attrs.gid is Some ==> encode_utf8(decimal(attrs.gid->Some_0 as nat)).len() <= u32::MAX,
    ensures
        holds(
            set_values(attrs),
            with_time(
                with_time(
                    with_id(
                        with_id(with_mode(with_size(Fields::Start, attrs.size), attrs.mode), attrs.uid),
                        attrs.gid,
                    ),
                    attrs.atime,
                ),
                attrs.mtime,
            ),
        ),
{
    let size = match attrs.size {
        Some(size) => be64(size),
        None => Seq::empty(),
    };
    let mode = match attrs.mode {
        Some(mode) => be32(mode),
        None => Seq::empty(),
    };
    let sized = with_size(Fields::Start, attrs.size);
    let moded = with_mode(sized, attrs.mode);
    assert(holds(size + mode, moded)) by {
        broadcast use crate::wire::group_fields;

        assert(holds(size, sized));
        if attrs.mode is None {
            assert(size + mode =~= size);
        }
    }
    let owned = with_id(moded, attrs.uid);
    let grouped = with_id(owned, attrs.gid);
    let read = with_time(grouped, attrs.atime);
    lemma_id_joins(size + mode, moded, attrs.uid);
    lemma_id_joins(size + mode + owner_value(attrs.uid), owned, attrs.gid);
    lemma_time_joins(
        size + mode + owner_value(attrs.uid) + owner_value(attrs.gid),
        grouped,
        attrs.atime,
    );
    lemma_time_joins(
        size + mode + owner_value(attrs.uid) + owner_value(attrs.gid) + time_value(attrs.atime),
        read,
        attrs.mtime,
    );
}

/// Attributes as a server writes them, and what follows.
#[verifier::opaque]
pub open spec fn written_envelope(mask: Seq<u32>, values: Seq<u8>, tail: Seq<u8>) -> Seq<u8> {
    bitmap4(mask) + (opaque(values) + tail)
}

/// Attributes are found with the bitmap and the values that were written, whatever follows
/// them.
pub proof fn law_written_envelope_is_read_back(
    mask: Seq<u32>,
    values: Seq<u8>,
    tail: Seq<u8>,
    label: Seq<char>,
)
    requires
        mask.len() <= u32::MAX,
        values.len() <= u32::MAX,
    ensures
        envelope(written_envelope(mask, values, tail), label) == Ok::<
            ((Seq<u32>, Seq<u8>), Seq<u8>),
            ErrorView,
        >(((mask, values), tail)),
{
    reveal(written_envelope);
    let rest = opaque(values) + tail;
    let s = bitmap4(mask) + rest;
    assert({
        &&& s.len() >= 4
        &&& word(s) == mask.len()
        &&& s.skip(4) == words(mask) + rest
        &&& s.skip(4).skip(4 * word(s)) == rest
        &&& s.skip(4).len() >= 4 * word(s)
    }) by {
        broadcast use crate::wire::group_front;

    }
    assert({
        &&& rest.len() >= 4
        &&& word(rest) == values.len()
        &&& rest.skip(4).len() >= padded(values.len())
        &&& rest.skip(4).take(values.len() as int) == values
        &&& rest.skip(4).skip(padded(values.len()) as int) == tail
    }) by {
        broadcast use crate::wire::group_front;

    }
    assert forall|i: int| 0 <= i < mask.len() implies word((words(mask) + rest).skip(4 * i))
        == mask[i] by {
        lemma_listed_word(mask, rest, i);
    }
    assert(bitmap_words(s.skip(4), mask.len()) =~= mask);
}

proof fn lemma_no_attributes_between(
    bitmap: Seq<u32>,
    s: Seq<u8>,
    from: nat,
    to: nat,
    known: AttrView,
)
    requires
        from <= to <= 32 * bitmap.len(),
        to <= u32::MAX,
        forall|attr: u32| from <= attr < to ==> !#[trigger] holds_attr(bitmap, attr),
    ensures
        attr_values(bitmap, s, from, known) == attr_values(bitmap, s, to, known),
    decreases to - from,
{
    if from < to {
        assert(!holds_attr(bitmap, from as u32));
        lemma_no_attributes_between(bitmap, s, from + 1, to, known);
    }
}

/// The value of an attribute of which the client keeps nothing is passed over.
proof fn lemma_attribute_is_passed_over(
    bitmap: Seq<u32>,
    from: nat,
    attr: u32,
    value: Seq<u8>,
    rest: Seq<u8>,
    known: AttrView,
)
    requires
        from <= attr < 32 * bitmap.len(),
        holds_attr(bitmap, attr),
        forall|other: u32| from <= other < attr ==> !#[trigger] holds_attr(bitmap, other),
        attr != 19 && attr != 20 && attr != 33,
        value_size(attr, value + rest) == Ok::<nat, ErrorView>(value.len()),
    ensures
        attr_values(bitmap, value + rest, from, known) == attr_values(
            bitmap,
            rest,
            (attr + 1) as nat,
            known,
        ),
{
    lemma_no_attributes_between(bitmap, value + rest, from, attr as nat, known);
    assert((value + rest).skip(value.len() as int) =~= rest);
}

proof fn lemma_attribute_is_kept(
    bitmap: Seq<u32>,
    from: nat,
    attr: u32,
    value: Seq<u8>,
    rest: Seq<u8>,
    known: AttrView,
)
    requires
        from <= attr < 32 * bitmap.len(),
        holds_attr(bitmap, attr),
        forall|other: u32| from <= other < attr ==> !#[trigger] holds_attr(bitmap, other),
        value_size(attr, value + rest) == Ok::<nat, ErrorView>(value.len()),
    ensures
        attr_values(bitmap, value + rest, from, known) == attr_values(
            bitmap,
            rest,
            (attr + 1) as nat,
            with_value(known, attr, value + rest),
        ),
{
    lemma_no_attributes_between(bitmap, value + rest, from, attr as nat, known);
    assert((value + rest).skip(value.len() as int) =~= rest);
}

/// How many bytes an attribute takes: four, eight, twelve or sixteen for numbers and times, and
/// for text and handles its own length.
pub proof fn law_attribute_sizes(attr: u32, s: Seq<u8>, text: Seq<u8>, rest: Seq<u8>)
    requires
        s.len() >= 16,
        text.len() <= u32::MAX,
    ensures
        attr == 1 || attr == 33 || attr == 35 ==> value_size(attr, s) == Ok::<nat, ErrorView>(4),
        attr == 3 || attr == 4 || attr == 20 || attr == 41 || attr == 45 ==> value_size(attr, s)
            == Ok::<nat, ErrorView>(8),
        attr == 47 || attr == 52 || attr == 53 ==> value_size(attr, s) == Ok::<nat, ErrorView>(12),
        attr == 8 ==> value_size(attr, s) == Ok::<nat, ErrorView>(16),
        attr == 19 || attr == 36 || attr == 37 ==> value_size(attr, opaque(text) + rest) == Ok::<
            nat,
            ErrorView,
        >(opaque(text).len()),
{
    broadcast use crate::wire::group_front;

}

/// The file ID, the handle and the mode are taken from where the server wrote them, and kept
/// apart from each other.
pub proof fn law_kept_attributes_are_read_back(
    known: AttrView,
    fileid: u64,
    fh: Seq<u8>,
    mode: u32,
    rest: Seq<u8>,
)
    requires
        fh.len() <= u32::MAX,
    ensures
        with_value(known, 20, be64(fileid) + rest) == (AttrView { fileid, ..known }),
        with_value(known, 19, opaque(fh) + rest) == (AttrView { filehandle: fh, ..known }),
        with_value(known, 33, be32(mode) + rest) == (AttrView { file_mode: mode, ..known }),
{
    broadcast use crate::wire::group_front;

}

/// Attributes with a handle, a file ID and a mode among the numbers around them are read back
/// as they were written.
pub proof fn law_written_attributes_are_read_back(
    size: u64,
    fh: Seq<u8>,
    fileid: u64,
    mode: u32,
    links: u32,
    tail: Seq<u8>,
)
    requires
        fh.len() <= 128,
    ensures
        file_attrs(
            bitmap4(seq![0x0018_0010u32, 0x0000_000a]) + (opaque(
                be64(size) + (opaque(fh) + (be64(fileid) + (be32(mode) + be32(links)))),
            ) + tail),
        ) == Ok::<(AttrView, Seq<u8>), ErrorView>(
            (AttrView { fileid, filehandle: fh, file_mode: mode }, tail),
        ),
{
    let mask = seq![0x0018_0010u32, 0x0000_000a];
    let after_mode = be32(links);
    let after_fileid = be32(mode) + after_mode;
    let after_fh = be64(fileid) + after_fileid;
    let after_size = opaque(fh) + after_fh;
    let values = be64(size) + after_size;
    lemma_sample_mask(mask);
    law_written_envelope_is_read_back(mask, values, tail, "fattr4"@);
    reveal(written_envelope);
    let k0 = no_attrs();
    let k1 = AttrView { filehandle: fh, ..k0 };
    let k2 = AttrView { fileid, ..k1 };
    let k3 = AttrView { file_mode: mode, ..k2 };
    assert(value_size(4, values) == Ok::<nat, ErrorView>(8));
    lemma_attribute_is_passed_over(mask, 0, 4, be64(size), after_size, k0);
    assert(value_size(19, after_size) == Ok::<nat, ErrorView>(opaque(fh).len())) by {
        broadcast use crate::wire::group_front;

    }
    lemma_attribute_is_kept(mask, 5, 19, opaque(fh), after_fh, k0);
    law_kept_attributes_are_read_back(k0, fileid, fh, mode, after_fh);
    assert(value_size(20, after_fh) == Ok::<nat, ErrorView>(8));
    lemma_attribute_is_kept(mask, 20, 20, be64(fileid), after_fileid, k1);
    law_kept_attributes_are_read_back(k1, fileid, fh, mode, after_fileid);
    assert(value_size(33, after_fileid) == Ok::<nat, ErrorView>(4));
    lemma_attribute_is_kept(mask, 21, 33, be32(mode), after_mode, k2);
    law_kept_attributes_are_read_back(k2, fileid, fh, mode, after_mode);
    assert(after_mode + Seq::<u8>::empty() =~= after_mode);
    assert(value_size(35, after_mode) == Ok::<nat, ErrorView>(4));
    lemma_attribute_is_passed_over(mask, 34, 35, be32(links), Seq::empty(), k3);
    lemma_no_attributes_between(mask, Seq::empty(), 36, 64, k3);
}

proof fn lemma_sample_mask(mask: Seq<u32>)
    requires
        mask == seq![0x0018_0010u32, 0x0000_000a],
    ensures
        forall|attr: u32| #[trigger]
            holds_attr(mask, attr) <==> (attr == 4 || attr == 19 || attr == 20 || attr == 33 || attr
                == 35),
{
    assert forall|attr: u32| #[trigger] holds_attr(mask, attr) <==> (attr == 4 || attr == 19 || attr
        == 20 || attr == 33 || attr == 35) by {
        let bit = attr % 32;
        assert((0x0018_0010u32 & (1u32 << bit) != 0) == (bit == 4 || bit == 19 || bit == 20)) by (
            bit_vector)
            requires
                bit < 32,
        ;
        assert((0x0000_000au32 & (1u32 << bit) != 0) == (bit == 1 || bit == 3)) by (bit_vector)
            requires
                bit < 32,
        ;
    }
}

} // verus!
