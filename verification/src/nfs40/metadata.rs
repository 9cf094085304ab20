//! What a file system says of itself: lease time, FSINFO, FSSTAT and PATHCONF by attributes.

use bytes::Bytes;
use vstd::prelude::*;
use vstd::string::StringExecFns;

use crate::buffer::{as_slice, contents, get_u32, get_u64, remaining};
use crate::error::{xdr_error, ErrorView, NfsError, Result};
use crate::nfs4::attrs::{
    decode_fattr4_envelope, envelope, fattr4_has, holds_attr, law_written_envelope_is_read_back,
    written_envelope,
};
use crate::nfs4::compound::{chain, Decoded, Parsed, RawRequest, OP_PUTFH};
use crate::nfs40::compound::{decode_getattr_response, putfh_and, CompoundBuilder, OP_GETATTR};
use crate::nfs40::replies::{law_reply_on_file_is_read, reply_on_file};
use crate::text::{comma_separated, concat2, decimal, push_decimal, push_list};
use crate::wire::{holds, Fields};
use crate::xdr::{be32, be64, bitmap4, bool32, hyper, opaque, word};

pub use crate::nfs4::attrs::Time;

verus! {

/// The request for attributes of a file.
pub open spec fn getattr_args(label: Seq<char>, fh: Seq<u8>, bitmap: Seq<u32>) -> RawRequest {
    RawRequest { tag: label, minor: 0, ops: Seq::empty() }.with_op(OP_PUTFH, opaque(fh)).with_op(
        OP_GETATTR,
        bitmap4(bitmap),
    )
}

pub fn getattr_request(label: &str, fh: &Bytes, bitmap: &[u32]) -> (request: CompoundBuilder)
    ensures
        request@ == getattr_args(label@, contents(*fh), bitmap@),
{
    CompoundBuilder::new(label).putfh(as_slice(fh)).getattr(bitmap)
}

/// The attributes that a reply to GETATTR holds: their bitmap and their values.
pub open spec fn queried(reply: Seq<u8>, label: Seq<char>) -> Decoded<(Seq<u32>, Seq<u8>)> {
    match putfh_and(reply, OP_GETATTR, "GETATTR"@) {
        Err(error) => Err(error),
        Ok((_, data)) => match envelope(data, label) {
            Err(error) => Err(error),
            Ok((found, rest)) => Ok(found),
        },
    }
}

pub fn decode_query(reply: Bytes, label: &str) -> (result: Result<(Vec<u32>, Bytes)>)
    ensures
        match queried(contents(reply), label@) {
            Ok((bitmap, values)) => result is Ok && result->Ok_0.0@ == bitmap && contents(
                result->Ok_0.1,
            ) == values,
            Err(error) => result is Err && result->Err_0@ == error,
        },
{
    let mut data = decode_getattr_response(reply)?;
    decode_fattr4_envelope(&mut data, label)
}

/// The value of an attribute of eight bytes.
pub open spec fn u64_attr(s: Seq<u8>, label: Seq<char>) -> Parsed<u64> {
    if s.len() < 8 {
        Err(ErrorView::Xdr(label + " truncated"@))
    } else {
        Ok((hyper(s), s.skip(8)))
    }
}

/// The value of an attribute of four bytes.
pub open spec fn u32_attr(s: Seq<u8>, label: Seq<char>) -> Parsed<u32> {
    if s.len() < 4 {
        Err(ErrorView::Xdr(label + " truncated"@))
    } else {
        Ok((word(s), s.skip(4)))
    }
}

/// The value of an attribute that is true or false.
pub open spec fn bool_attr(s: Seq<u8>, label: Seq<char>) -> Parsed<bool> {
    chain(
        u32_attr(s, label),
        |value: u32, rest: Seq<u8>|
            if value <= 1 {
                Ok::<(bool, Seq<u8>), ErrorView>((value == 1, rest))
            } else {
                Err(
                    ErrorView::Xdr(
                        label + " has invalid boolean value "@ + decimal(value as nat),
                    ),
                )
            },
    )
}

/// Whether a value was read as expected.
pub open spec fn taken_as<T>(result: Result<T>, left: Seq<u8>, expected: Parsed<T>) -> bool {
    match expected {
        Ok((value, rest)) => result is Ok && result->Ok_0 == value && left == rest,
        Err(error) => result is Err && result->Err_0@ == error,
    }
}

pub fn take_u64_attr(values: &mut Bytes, label: &str) -> (value: Result<u64>)
    ensures
        taken_as(value, contents(*final(values)), u64_attr(contents(*old(values)), label@)),
{
    if remaining(values) < 8 {
        return Err(NfsError::Xdr(concat2(label, " truncated")));
    }
    Ok(get_u64(values))
}

pub fn take_u32_attr(values: &mut Bytes, label: &str) -> (value: Result<u32>)
    ensures
        taken_as(value, contents(*final(values)), u32_attr(contents(*old(values)), label@)),
{
    if remaining(values) < 4 {
        return Err(NfsError::Xdr(concat2(label, " truncated")));
    }
    Ok(get_u32(values))
}

pub fn take_bool_attr(values: &mut Bytes, label: &str) -> (value: Result<bool>)
    ensures
        taken_as(value, contents(*final(values)), bool_attr(contents(*old(values)), label@)),
{
    let value: u32 = take_u32_attr(values, label)?;
    if value > 1 {
        let mut text = concat2(label, " has invalid boolean value ");
        push_decimal(&mut text, value as u64);
        return Err(NfsError::Xdr(text));
    }
    Ok(value == 1)
}

/// Whether nothing is left of the values of attributes.
pub open spec fn consumed(s: Seq<u8>, label: Seq<char>) -> Decoded<()> {
    if s.len() > 0 {
        Err(ErrorView::Xdr(label + " has trailing attribute values"@))
    } else {
        Ok(())
    }
}

pub fn ensure_attr_values_consumed(values: &Bytes, label: &str) -> (result: Result<()>)
    ensures
        match consumed(contents(*values), label@) {
            Ok(_) => result is Ok,
            Err(error) => result is Err && result->Err_0@ == error,
        },
{
    if remaining(values) > 0 {
        return Err(NfsError::Xdr(concat2(label, " has trailing attribute values")));
    }
    Ok(())
}

/// The attributes of some that a bitmap does not hold.
pub open spec fn missing(bitmap: Seq<u32>, required: Seq<u32>) -> Seq<u32>
    decreases required.len(),
{
    if required.len() == 0 {
        Seq::empty()
    } else {
        let before = missing(bitmap, required.drop_last());
        if holds_attr(bitmap, required.last()) {
            before
        } else {
            before.push(required.last())
        }
    }
}

/// Refuses a reply that lacks attributes.
pub open spec fn required_attrs(bitmap: Seq<u32>, required: Seq<u32>, operation: Seq<char>) -> Decoded<
    (),
> {
    let lacking = missing(bitmap, required);
    if lacking.len() > 0 {
        Err(
            ErrorView::Unsupported(
                "NFSv4.0 "@ + operation + " server omitted required attributes ["@
                    + comma_separated(lacking) + "]"@,
            ),
        )
    } else {
        Ok(())
    }
}

pub fn require_fattrs(bitmap: &[u32], required: &[u32], operation: &str) -> (result: Result<()>)
    ensures
        match required_attrs(bitmap@, required@, operation@) {
            Ok(_) => result is Ok,
            Err(error) => result is Err && result->Err_0@ == error,
        },
{
    let mut lacking: Vec<u32> = Vec::new();
    let mut i: usize = 0;
    assert(required@.take(0) =~= Seq::empty());
    while i < required.len()
        invariant
            i <= required@.len(),
            lacking@ == missing(bitmap@, required@.take(i as int)),
        decreases required.len() - i,
    {
        assert(required@.take(i + 1).drop_last() =~= required@.take(i as int));
        let attr: u32 = required[i];
        if !fattr4_has(bitmap, attr) {
            lacking.push(attr);
        }
        i += 1;
    }
    assert(required@.take(i as int) =~= required@);
    if lacking.len() > 0 {
        let mut text = concat2("NFSv4.0 ", operation);
        text.append(" server omitted required attributes [");
        push_list(&mut text, &lacking);
        text.append("]");
        return Err(NfsError::Unsupported(text));
    }
    Ok(())
}

/// The lease time that a reply holds, in seconds.
pub open spec fn lease_time(reply: Seq<u8>) -> Decoded<u32> {
    match queried(reply, "lease_time"@) {
        Err(error) => Err(error),
        Ok((bitmap, values)) => if !holds_attr(bitmap, 10) || values.len() != 4 {
            Err(ErrorView::Xdr("NFSv4.0 lease_time response is missing or malformed"@))
        } else if word(values) == 0 {
            Err(ErrorView::Xdr("NFSv4.0 lease_time is zero"@))
        } else {
            Ok(word(values))
        },
    }
}

/// The request for the lease time.
pub fn lease_time_request(root_fh: &Bytes) -> (request: CompoundBuilder)
    ensures
        request@ == getattr_args("lease-time"@, contents(*root_fh), seq![0x400u32]),
{
    let bitmap: [u32; 1] = [0x400];
    assert(bitmap@ =~= seq![0x400u32]);
    getattr_request("lease-time", root_fh, &bitmap)
}

pub fn decode_lease_time(reply: Bytes) -> (seconds: Result<u32>)
    ensures
        match lease_time(contents(reply)) {
            Ok(expected) => seconds is Ok && seconds->Ok_0 == expected,
            Err(error) => seconds is Err && seconds->Err_0@ == error,
        },
{
    let (bitmap, mut values) = decode_query(reply, "lease_time")?;
    if !fattr4_has(&bitmap, 10) || remaining(&values) != 4 {
        return Err(xdr_error("NFSv4.0 lease_time response is missing or malformed"));
    }
    let seconds: u32 = get_u32(&mut values);
    if seconds == 0 {
        return Err(xdr_error("NFSv4.0 lease_time is zero"));
    }
    Ok(seconds)
}

/// What a file system can do.
#[derive(Clone, Copy, Debug, PartialEq, Eq, Structural)]
pub struct FSInfo {
    pub rtmax: u32,
    pub rtpref: u32,
    pub rtmult: u32,
    pub wtmax: u32,
    pub wtpref: u32,
    pub wtmult: u32,
    pub dtpref: u32,
    pub maxfilesize: u64,
    pub time_delta: Time,
    pub properties: u32,
}

/// How full a file system is.
#[derive(Clone, Copy, Debug, PartialEq, Eq, Structural)]
pub struct FSStat {
    pub tbytes: u64,
    pub fbytes: u64,
    pub abytes: u64,
    pub tfiles: u64,
    pub ffiles: u64,
    pub afiles: u64,
}

/// What names a file system takes.
#[derive(Clone, Copy, Debug, PartialEq, Eq, Structural)]
pub struct Pathconf {
    pub linkmax: u32,
    pub name_max: u32,
    pub no_trunc: bool,
    pub chown_restricted: bool,
    pub case_insensitive: bool,
    pub case_preserving: bool,
}

/// The smaller of a size that the server names and one that the client asks for.
pub open spec fn smaller(server: u64, client: u32) -> u32 {
    if server <= client {
        server as u32
    } else {
        client
    }
}

fn limit(server: u64, client: u32) -> (size: u32)
    ensures
        size == smaller(server, client),
{
    if server <= client as u64 {
        server as u32
    } else {
        client
    }
}

/// The properties of FSINFO: hard links, symbolic links, one PATHCONF for all files, and
/// times that can be set.
pub open spec fn property_bits(link: bool, symlink: bool, homogeneous: bool, cansettime: bool) -> u32 {
    ((if link {
        1int
    } else {
        0
    }) + (if symlink {
        2int
    } else {
        0
    }) + (if homogeneous {
        8int
    } else {
        0
    }) + (if cansettime {
        16int
    } else {
        0
    })) as u32
}

/// The time_delta attribute.
pub open spec fn time_delta(s: Seq<u8>) -> Parsed<Time> {
    if s.len() < 12 {
        Err(ErrorView::Xdr("time_delta truncated"@))
    } else if hyper(s) > u32::MAX {
        Err(ErrorView::Xdr("time_delta seconds out of range"@))
    } else {
        Ok((Time { seconds: hyper(s) as u32, nseconds: word(s.skip(8)) }, s.skip(12)))
    }
}

fn take_time_delta(values: &mut Bytes) -> (time: Result<Time>)
    ensures
        taken_as(time, contents(*final(values)), time_delta(contents(*old(values)))),
{
    let ghost s = contents(*values);
    if remaining(values) < 12 {
        return Err(xdr_error("time_delta truncated"));
    }
    let seconds: u64 = get_u64(values);
    if seconds > u32::MAX as u64 {
        return Err(xdr_error("time_delta seconds out of range"));
    }
    let nseconds: u32 = get_u32(values);
    assert(s.skip(8).skip(4) =~= s.skip(12));
    Ok(Time { seconds: seconds as u32, nseconds })
}

/// The homogeneous attribute, if there is one.
pub open spec fn homogeneous_attr(bitmap: Seq<u32>, s: Seq<u8>) -> Parsed<bool> {
    if holds_attr(bitmap, 26) {
        bool_attr(s, "homogeneous"@)
    } else {
        Ok((false, s))
    }
}

/// The sizes and the time span of FSINFO, behind its properties.
pub open spec fn fsinfo_sizes(s: Seq<u8>, properties: u32, rsize: u32, wsize: u32) -> Decoded<FSInfo> {
    chain(
        u64_attr(s, "maxfilesize"@),
        |maxfilesize: u64, s: Seq<u8>|
            chain(
                u64_attr(s, "maxread"@),
                |maxread: u64, s: Seq<u8>|
                    chain(
                        u64_attr(s, "maxwrite"@),
                        |maxwrite: u64, s: Seq<u8>|
                            chain(
                                time_delta(s),
                                |time_delta: Time, s: Seq<u8>|
                                    match consumed(s, "fsinfo"@) {
                                        Err(error) => Err::<FSInfo, ErrorView>(error),
                                        Ok(_) => Ok(
                                            FSInfo {
                                                rtmax: smaller(maxread, rsize),
                                                rtpref: smaller(maxread, rsize),
                                                rtmult: 1,
                                                wtmax: smaller(maxwrite, wsize),
                                                wtpref: smaller(maxwrite, wsize),
                                                wtmult: 1,
                                                dtpref: 0,
                                                maxfilesize,
                                                time_delta,
                                                properties,
                                            },
                                        ),
                                    },
                            ),
                    ),
            ),
    )
}

/// What attributes say of a file system.
pub open spec fn fsinfo_values(bitmap: Seq<u32>, s: Seq<u8>, rsize: u32, wsize: u32) -> Decoded<FSInfo> {
    chain(
        bool_attr(s, "link_support"@),
        |link: bool, s: Seq<u8>|
            chain(
                bool_attr(s, "symlink_support"@),
                |symlink: bool, s: Seq<u8>|
                    chain(
                        bool_attr(s, "cansettime"@),
                        |cansettime: bool, s: Seq<u8>|
                            chain(
                                homogeneous_attr(bitmap, s),
                                |homogeneous: bool, s: Seq<u8>|
                                    fsinfo_sizes(
                                        s,
                                        property_bits(link, symlink, homogeneous, cansettime),
                                        rsize,
                                        wsize,
                                    ),
                            ),
                    ),
            ),
    )
}

/// What the reply to FSINFO says of a file system.
pub open spec fn fsinfo_response(reply: Seq<u8>, rsize: u32, wsize: u32) -> Decoded<FSInfo> {
    match queried(reply, "fsinfo"@) {
        Err(error) => Err(error),
        Ok((bitmap, values)) => match required_attrs(
            bitmap,
            seq![5u32, 6, 15, 27, 30, 31, 51],
            "FSINFO"@,
        ) {
            Err(error) => Err(error),
            Ok(_) => fsinfo_values(bitmap, values, rsize, wsize),
        },
    }
}

/// The request for what a file system can do.
pub fn fsinfo_request(root_fh: &Bytes) -> (request: CompoundBuilder)
    ensures
        request@ == getattr_args("fsinfo"@, contents(*root_fh), seq![0xcc00_8060u32, 0x8_0000]),
{
    let bitmap: [u32; 2] = [0xcc00_8060, 0x8_0000];
    assert(bitmap@ =~= seq![0xcc00_8060u32, 0x8_0000]);
    getattr_request("fsinfo", root_fh, &bitmap)
}

fn decode_fsinfo_sizes(values: &mut Bytes, properties: u32, rsize: u32, wsize: u32) -> (info: Result<
    FSInfo,
>)
    ensures
        match fsinfo_sizes(contents(*old(values)), properties, rsize, wsize) {
            Ok(expected) => info is Ok && info->Ok_0 == expected,
            Err(error) => info is Err && info->Err_0@ == error,
        },
{
    let maxfilesize: u64 = take_u64_attr(values, "maxfilesize")?;
    let maxread: u64 = take_u64_attr(values, "maxread")?;
    let maxwrite: u64 = take_u64_attr(values, "maxwrite")?;
    let time_delta: Time = take_time_delta(values)?;
    ensure_attr_values_consumed(values, "fsinfo")?;
    Ok(
        FSInfo {
            rtmax: limit(maxread, rsize),
            rtpref: limit(maxread, rsize),
            rtmult: 1,
            wtmax: limit(maxwrite, wsize),
            wtpref: limit(maxwrite, wsize),
            wtmult: 1,
            dtpref: 0,
            maxfilesize,
            time_delta,
            properties,
        },
    )
}

fn bit(set: bool, value: u32) -> (bits: u32)
    ensures
        bits == (if set {
            value
        } else {
            0
        }),
{
    if set {
        value
    } else {
        0
    }
}

/// Reads what a file system can do. Transfers are no larger than the sizes that were asked
/// for.
pub fn decode_fsinfo(reply: Bytes, rsize: u32, wsize: u32) -> (info: Result<FSInfo>)
    ensures
        match fsinfo_response(contents(reply), rsize, wsize) {
            Ok(expected) => info is Ok && info->Ok_0 == expected,
            Err(error) => info is Err && info->Err_0@ == error,
        },
{
    let (bitmap, mut values) = decode_query(reply, "fsinfo")?;
    let required: [u32; 7] = [5, 6, 15, 27, 30, 31, 51];
    assert(required@ =~= seq![5u32, 6, 15, 27, 30, 31, 51]);
    require_fattrs(&bitmap, &required, "FSINFO")?;
    let link = take_bool_attr(&mut values, "link_support")?;
    let symlink = take_bool_attr(&mut values, "symlink_support")?;
    let cansettime = take_bool_attr(&mut values, "cansettime")?;
    let homogeneous = if fattr4_has(&bitmap, 26) {
        take_bool_attr(&mut values, "homogeneous")?
    } else {
        false
    };
    let properties: u32 = bit(link, 1) + bit(symlink, 2) + bit(homogeneous, 8) + bit(
        cansettime,
        16,
    );
    decode_fsinfo_sizes(&mut values, properties, rsize, wsize)
}

/// What attributes say of the room on a file system.
pub open spec fn fsstat_values(s: Seq<u8>) -> Decoded<FSStat> {
    let label = "fsstat value"@;
    chain(
        u64_attr(s, label),
        |afiles: u64, s: Seq<u8>|
            chain(
                u64_attr(s, label),
                |ffiles: u64, s: Seq<u8>|
                    chain(
                        u64_attr(s, label),
                        |tfiles: u64, s: Seq<u8>|
                            chain(
                                u64_attr(s, label),
                                |abytes: u64, s: Seq<u8>|
                                    chain(
                                        u64_attr(s, label),
                                        |fbytes: u64, s: Seq<u8>|
                                            chain(
                                                u64_attr(s, label),
                                                |tbytes: u64, s: Seq<u8>|
                                                    match consumed(s, "fsstat"@) {
                                                        Err(error) => Err::<FSStat, ErrorView>(
                                                            error,
                                                        ),
                                                        Ok(_) => Ok(
                                                            FSStat {
                                                                tbytes,
                                                                fbytes,
                                                                abytes,
                                                                tfiles,
                                                                ffiles,
                                                                afiles,
                                                            },
                                                        ),
                                                    },
                                            ),
                                    ),
                            ),
                    ),
            ),
    )
}

/// What the reply to FSSTAT says of a file system.
pub open spec fn fsstat_response(reply: Seq<u8>) -> Decoded<FSStat> {
    match queried(reply, "fsstat"@) {
        Err(error) => Err(error),
        Ok((bitmap, values)) => match required_attrs(
            bitmap,
            seq![21u32, 22, 23, 42, 43, 44],
            "FSSTAT"@,
        ) {
            Err(error) => Err(error),
            Ok(_) => fsstat_values(values),
        },
    }
}

/// The request for the room on a file system.
pub fn fsstat_request(root_fh: &Bytes) -> (request: CompoundBuilder)
    ensures
        request@ == getattr_args("fsstat"@, contents(*root_fh), seq![0xe0_0000u32, 0x1c00]),
{
    let bitmap: [u32; 2] = [0xe0_0000, 0x1c00];
    assert(bitmap@ =~= seq![0xe0_0000u32, 0x1c00]);
    getattr_request("fsstat", root_fh, &bitmap)
}

/// Reads how full a file system is.
pub fn decode_fsstat(reply: Bytes) -> (stat: Result<FSStat>)
    ensures
        match fsstat_response(contents(reply)) {
            Ok(expected) => stat is Ok && stat->Ok_0 == expected,
            Err(error) => stat is Err && stat->Err_0@ == error,
        },
{
    let (bitmap, mut values) = decode_query(reply, "fsstat")?;
    let required: [u32; 6] = [21, 22, 23, 42, 43, 44];
    assert(required@ =~= seq![21u32, 22, 23, 42, 43, 44]);
    require_fattrs(&bitmap, &required, "FSSTAT")?;
    let afiles: u64 = take_u64_attr(&mut values, "fsstat value")?;
    let ffiles: u64 = take_u64_attr(&mut values, "fsstat value")?;
    let tfiles: u64 = take_u64_attr(&mut values, "fsstat value")?;
    let abytes: u64 = take_u64_attr(&mut values, "fsstat value")?;
    let fbytes: u64 = take_u64_attr(&mut values, "fsstat value")?;
    let tbytes: u64 = take_u64_attr(&mut values, "fsstat value")?;
    ensure_attr_values_consumed(&values, "fsstat")?;
    Ok(FSStat { tbytes, fbytes, abytes, tfiles, ffiles, afiles })
}

/// What attributes say of the names that a file system takes.
pub open spec fn pathconf_values(s: Seq<u8>) -> Decoded<Pathconf> {
    chain(
        bool_attr(s, "case_insensitive"@),
        |case_insensitive: bool, s: Seq<u8>|
            chain(
                bool_attr(s, "case_preserving"@),
                |case_preserving: bool, s: Seq<u8>|
                    chain(
                        bool_attr(s, "chown_restricted"@),
                        |chown_restricted: bool, s: Seq<u8>|
                            chain(
                                u32_attr(s, "maxlink"@),
                                |linkmax: u32, s: Seq<u8>|
                                    chain(
                                        u32_attr(s, "maxname"@),
                                        |name_max: u32, s: Seq<u8>|
                                            chain(
                                                bool_attr(s, "no_trunc"@),
                                                |no_trunc: bool, s: Seq<u8>|
                                                    match consumed(s, "pathconf"@) {
                                                        Err(error) => Err::<Pathconf, ErrorView>(
                                                            error,
                                                        ),
                                                        Ok(_) => Ok(
                                                            Pathconf {
                                                                linkmax,
                                                                name_max,
                                                                no_trunc,
                                                                chown_restricted,
                                                                case_insensitive,
                                                                case_preserving,
                                                            },
                                                        ),
                                                    },
                                            ),
                                    ),
                            ),
                    ),
            ),
    )
}

/// What the reply to PATHCONF says of a file system.
pub open spec fn pathconf_response(reply: Seq<u8>) -> Decoded<Pathconf> {
    match queried(reply, "pathconf"@) {
        Err(error) => Err(error),
        Ok((bitmap, values)) => match required_attrs(
            bitmap,
            seq![16u32, 17, 18, 28, 29, 34],
            "PATHCONF"@,
        ) {
            Err(error) => Err(error),
            Ok(_) => pathconf_values(values),
        },
    }
}

/// The request for the names that a file system takes. An empty filehandle stands for the
/// root.
pub fn pathconf_request(fh: &Bytes, root_fh: &Bytes) -> (request: CompoundBuilder)
    ensures
        request@ == getattr_args(
            "pathconf"@,
            if contents(*fh).len() == 0 {
                contents(*root_fh)
            } else {
                contents(*fh)
            },
            seq![0x3007_0000u32, 4],
        ),
{
    let bitmap: [u32; 2] = [0x3007_0000, 4];
    assert(bitmap@ =~= seq![0x3007_0000u32, 4]);
    let target = if remaining(fh) == 0 { root_fh } else { fh };
    getattr_request("pathconf", target, &bitmap)
}

/// Reads what names a file system takes.
pub fn decode_pathconf(reply: Bytes) -> (pathconf: Result<Pathconf>)
    ensures
        match pathconf_response(contents(reply)) {
            Ok(expected) => pathconf is Ok && pathconf->Ok_0 == expected,
            Err(error) => pathconf is Err && pathconf->Err_0@ == error,
        },
{
    let (bitmap, mut values) = decode_query(reply, "pathconf")?;
    let required: [u32; 6] = [16, 17, 18, 28, 29, 34];
    assert(required@ =~= seq![16u32, 17, 18, 28, 29, 34]);
    require_fattrs(&bitmap, &required, "PATHCONF")?;
    let case_insensitive = take_bool_attr(&mut values, "case_insensitive")?;
    let case_preserving = take_bool_attr(&mut values, "case_preserving")?;
    let chown_restricted = take_bool_attr(&mut values, "chown_restricted")?;
    let linkmax: u32 = take_u32_attr(&mut values, "maxlink")?;
    let name_max: u32 = take_u32_attr(&mut values, "maxname")?;
    let no_trunc = take_bool_attr(&mut values, "no_trunc")?;
    ensure_attr_values_consumed(&values, "pathconf")?;
    Ok(
        Pathconf {
            linkmax,
            name_max,
            no_trunc,
            chown_restricted,
            case_insensitive,
            case_preserving,
        },
    )
}

/// Transfers are never larger than the client asked for.
pub proof fn law_transfers_fit_the_client(reply: Seq<u8>, rsize: u32, wsize: u32)
    ensures
        fsinfo_response(reply, rsize, wsize) is Ok ==> {
            let info = fsinfo_response(reply, rsize, wsize)->Ok_0;
            info.rtmax <= rsize && info.rtpref <= rsize && info.wtmax <= wsize && info.wtpref
                <= wsize
        },
{
}

/// GETATTR asks for the attributes of the bitmap.
pub proof fn law_getattr_names_its_attributes(label: Seq<char>, fh: Seq<u8>, bitmap: Seq<u32>)
    requires
        fh.len() <= u32::MAX,
    ensures
        ({
            let request = getattr_args(label, fh, bitmap);
            &&& request.tag == label
            &&& request.minor == 0
            &&& request.ops.len() == 2
            &&& request.ops[0].opcode == 22
            &&& holds(request.ops[0].args, Fields::Start.counted(fh))
            &&& request.ops[1].opcode == 9
            &&& holds(request.ops[1].args, Fields::Start.list(bitmap))
        }),
{
    broadcast use crate::wire::group_fields;

}

/// A reply to GETATTR as a server writes it.
pub open spec fn written_attrs(tag: Seq<u8>, mask: Seq<u32>, values: Seq<u8>, tail: Seq<u8>) -> Seq<
    u8,
> {
    reply_on_file(tag, 9, written_envelope(mask, values, tail))
}

/// Whether a reply to GETATTR holds a bitmap and values.
#[verifier::opaque]
spec fn answers(reply: Seq<u8>, label: Seq<char>, mask: Seq<u32>, values: Seq<u8>) -> bool {
    queried(reply, label) == Ok::<(Seq<u32>, Seq<u8>), ErrorView>((mask, values))
}

/// Whether a bitmap holds all attributes that an operation requires.
#[verifier::opaque]
spec fn has_all(mask: Seq<u32>, required: Seq<u32>, operation: Seq<char>) -> bool {
    required_attrs(mask, required, operation) is Ok
}

proof fn lemma_queried(
    tag: Seq<u8>,
    mask: Seq<u32>,
    values: Seq<u8>,
    tail: Seq<u8>,
    label: Seq<char>,
)
    requires
        tag.len() <= u32::MAX,
        mask.len() <= u32::MAX,
        values.len() <= u32::MAX,
    ensures
        answers(written_attrs(tag, mask, values, tail), label, mask, values),
{
    reveal(answers);
    law_reply_on_file_is_read(tag, 9, "GETATTR"@, 2, written_envelope(mask, values, tail));
    law_written_envelope_is_read_back(mask, values, tail, label);
}

/// An attribute is missing just where it is required and the bitmap does not hold it.
pub proof fn law_missing_attributes_are_found(bitmap: Seq<u32>, required: Seq<u32>)
    ensures
        forall|attr: u32| #[trigger]
            missing(bitmap, required).contains(attr) <==> required.contains(attr) && !holds_attr(
                bitmap,
                attr,
            ),
    decreases required.len(),
{
    if required.len() > 0 {
        let before = missing(bitmap, required.drop_last());
        law_missing_attributes_are_found(bitmap, required.drop_last());
        assert forall|attr: u32| #[trigger]
            missing(bitmap, required).contains(attr) <==> required.contains(attr) && !holds_attr(
                bitmap,
                attr,
            ) by {
            assert(before.contains(attr) <==> required.drop_last().contains(attr) && !holds_attr(
                bitmap,
                attr,
            ));
            if required.contains(attr) && attr != required.last() {
                let i = choose|i: int| 0 <= i < required.len() && required[i] == attr;
                assert(required.drop_last()[i] == attr);
            }
            if before.contains(attr) {
                let i = choose|i: int| 0 <= i < before.len() && before[i] == attr;
                assert(missing(bitmap, required)[i] == attr);
                let k = choose|k: int|
                    0 <= k < required.drop_last().len() && required.drop_last()[k] == attr;
                assert(required[k] == attr);
            }
            if missing(bitmap, required).contains(attr) && !before.contains(attr) {
                assert(attr == required.last());
            }
            if !holds_attr(bitmap, required.last()) {
                assert(missing(bitmap, required).last() == required.last());
                assert(missing(bitmap, required).contains(required.last()));
            }
        }
    }
}

proof fn lemma_nothing_missing(bitmap: Seq<u32>, required: Seq<u32>, operation: Seq<char>)
    requires
        forall|i: int| 0 <= i < required.len() ==> holds_attr(bitmap, #[trigger] required[i]),
    ensures
        has_all(bitmap, required, operation),
{
    reveal(has_all);
    law_missing_attributes_are_found(bitmap, required);
    let lacking = missing(bitmap, required);
    if lacking.len() > 0 {
        assert(lacking.contains(lacking[0]));
    }
}

proof fn lemma_u64_attr(value: u64, rest: Seq<u8>, label: Seq<char>)
    ensures
        u64_attr(be64(value) + rest, label) == Ok::<(u64, Seq<u8>), ErrorView>((value, rest)),
{
    broadcast use crate::wire::group_front;

}

proof fn lemma_u32_attr(value: u32, rest: Seq<u8>, label: Seq<char>)
    ensures
        u32_attr(be32(value) + rest, label) == Ok::<(u32, Seq<u8>), ErrorView>((value, rest)),
{
    broadcast use crate::wire::group_front;

}

proof fn lemma_bool_attr(value: bool, rest: Seq<u8>, label: Seq<char>)
    ensures
        bool_attr(bool32(value) + rest, label) == Ok::<(bool, Seq<u8>), ErrorView>((value, rest)),
{
    lemma_u32_attr(
        if value {
            1
        } else {
            0
        },
        rest,
        label,
    );
}

/// The lease time is the number of seconds that the server wrote; it must not be zero.
pub proof fn law_lease_time_is_read_back(
    tag: Seq<u8>,
    mask: Seq<u32>,
    seconds: u32,
    tail: Seq<u8>,
)
    requires
        tag.len() <= u32::MAX,
        mask.len() <= u32::MAX,
    ensures
        ({
            let read = lease_time(written_attrs(tag, mask, be32(seconds), tail));
            &&& holds_attr(mask, 10) && seconds > 0 ==> read == Ok::<u32, ErrorView>(seconds)
            &&& !holds_attr(mask, 10) || seconds == 0 ==> read is Err
        }),
{
    lemma_queried(tag, mask, be32(seconds), tail, "lease_time"@);
    reveal(answers);
    crate::xdr::lemma_word_of_be32(seconds, Seq::empty());
    assert(be32(seconds) + Seq::<u8>::empty() =~= be32(seconds));
}

/// How full a file system is, as a server writes it.
#[verifier::opaque]
pub open spec fn written_fsstat(stat: FSStat) -> Seq<u8> {
    be64(stat.afiles) + (be64(stat.ffiles) + (be64(stat.tfiles) + (be64(stat.abytes) + (be64(
        stat.fbytes,
    ) + be64(stat.tbytes)))))
}

/// How full a file system is is read back as it was written: the files available, free and in
/// all, and the bytes available, free and in all.
pub proof fn law_fsstat_is_read_back(tag: Seq<u8>, mask: Seq<u32>, stat: FSStat, tail: Seq<u8>)
    requires
        tag.len() <= u32::MAX,
        mask.len() <= u32::MAX,
        holds_attr(mask, 21),
        holds_attr(mask, 22),
        holds_attr(mask, 23),
        holds_attr(mask, 42),
        holds_attr(mask, 43),
        holds_attr(mask, 44),
    ensures
        fsstat_response(written_attrs(tag, mask, written_fsstat(stat), tail)) == Ok::<
            FSStat,
            ErrorView,
        >(stat),
{
    let values = written_fsstat(stat);
    lemma_fsstat_values(stat);
    lemma_queried(tag, mask, values, tail, "fsstat"@);
    lemma_nothing_missing(mask, seq![21u32, 22, 23, 42, 43, 44], "FSSTAT"@);
    lemma_fsstat_of(written_attrs(tag, mask, values, tail), mask, values, stat);
}

/// Whether values hold how full a file system is.
#[verifier::opaque]
spec fn holds_fsstat(values: Seq<u8>, stat: FSStat) -> bool {
    fsstat_values(values) == Ok::<FSStat, ErrorView>(stat)
}

proof fn lemma_fsstat_of(reply: Seq<u8>, mask: Seq<u32>, values: Seq<u8>, stat: FSStat)
    requires
        answers(reply, "fsstat"@, mask, values),
        has_all(mask, seq![21u32, 22, 23, 42, 43, 44], "FSSTAT"@),
        holds_fsstat(values, stat),
    ensures
        fsstat_response(reply) == Ok::<FSStat, ErrorView>(stat),
{
    reveal(holds_fsstat);
    reveal(answers);
    reveal(has_all);
}

proof fn lemma_fsstat_values(stat: FSStat)
    ensures
        written_fsstat(stat).len() == 48,
        holds_fsstat(written_fsstat(stat), stat),
{
    reveal(written_fsstat);
    reveal(holds_fsstat);
    let last = be64(stat.tbytes) + Seq::<u8>::empty();
    let free = be64(stat.fbytes) + last;
    let available = be64(stat.abytes) + free;
    let files = be64(stat.tfiles) + available;
    let free_files = be64(stat.ffiles) + files;
    assert(last =~= be64(stat.tbytes));
    let label = "fsstat value"@;
    lemma_u64_attr(stat.afiles, free_files, label);
    lemma_u64_attr(stat.ffiles, files, label);
    lemma_u64_attr(stat.tfiles, available, label);
    lemma_u64_attr(stat.abytes, free, label);
    lemma_u64_attr(stat.fbytes, last, label);
    lemma_u64_attr(stat.tbytes, Seq::empty(), label);
}

/// The limits on paths as a server writes them.
#[verifier::opaque]
pub open spec fn written_pathconf(conf: Pathconf) -> Seq<u8> {
    bool32(conf.case_insensitive) + (bool32(conf.case_preserving) + (bool32(conf.chown_restricted)
        + (be32(conf.linkmax) + (be32(conf.name_max) + bool32(conf.no_trunc)))))
}

/// The limits on paths are read back as they were written.
pub proof fn law_pathconf_is_read_back(
    tag: Seq<u8>,
    mask: Seq<u32>,
    conf: Pathconf,
    tail: Seq<u8>,
)
    requires
        tag.len() <= u32::MAX,
        mask.len() <= u32::MAX,
        holds_attr(mask, 16),
        holds_attr(mask, 17),
        holds_attr(mask, 18),
        holds_attr(mask, 28),
        holds_attr(mask, 29),
        holds_attr(mask, 34),
    ensures
        pathconf_response(written_attrs(tag, mask, written_pathconf(conf), tail)) == Ok::<
            Pathconf,
            ErrorView,
        >(conf),
{
    let values = written_pathconf(conf);
    lemma_pathconf_values(conf);
    lemma_queried(tag, mask, values, tail, "pathconf"@);
    lemma_nothing_missing(mask, seq![16u32, 17, 18, 28, 29, 34], "PATHCONF"@);
    lemma_pathconf_of(written_attrs(tag, mask, values, tail), mask, values, conf);
}

/// Whether values hold limits on paths.
#[verifier::opaque]
spec fn holds_pathconf(values: Seq<u8>, conf: Pathconf) -> bool {
    pathconf_values(values) == Ok::<Pathconf, ErrorView>(conf)
}

proof fn lemma_pathconf_of(reply: Seq<u8>, mask: Seq<u32>, values: Seq<u8>, conf: Pathconf)
    requires
        answers(reply, "pathconf"@, mask, values),
        has_all(mask, seq![16u32, 17, 18, 28, 29, 34], "PATHCONF"@),
        holds_pathconf(values, conf),
    ensures
        pathconf_response(reply) == Ok::<Pathconf, ErrorView>(conf),
{
    reveal(holds_pathconf);
    reveal(answers);
    reveal(has_all);
}

proof fn lemma_pathconf_values(conf: Pathconf)
    ensures
        written_pathconf(conf).len() == 24,
        holds_pathconf(written_pathconf(conf), conf),
{
    reveal(written_pathconf);
    reveal(holds_pathconf);
    let last = bool32(conf.no_trunc) + Seq::<u8>::empty();
    let name_max = be32(conf.name_max) + last;
    let linkmax = be32(conf.linkmax) + name_max;
    let chown = bool32(conf.chown_restricted) + linkmax;
    let preserving = bool32(conf.case_preserving) + chown;
    assert(last =~= bool32(conf.no_trunc));
    lemma_bool_attr(conf.case_insensitive, preserving, "case_insensitive"@);
    lemma_bool_attr(conf.case_preserving, chown, "case_preserving"@);
    lemma_bool_attr(conf.chown_restricted, linkmax, "chown_restricted"@);
    lemma_u32_attr(conf.linkmax, name_max, "maxlink"@);
    lemma_u32_attr(conf.name_max, last, "maxname"@);
    lemma_bool_attr(conf.no_trunc, Seq::empty(), "no_trunc"@);
}

/// What a file system can do, as a server writes it: whether it takes links, symbolic links and
/// times and is the same throughout; the largest file, read and write; and how fine its times
/// are.
#[verifier::opaque]
pub open spec fn written_fsinfo(
    flags: (bool, bool, bool, bool),
    sizes: (u64, u64, u64),
    delta: Time,
) -> Seq<u8> {
    bool32(flags.0) + (bool32(flags.1) + (bool32(flags.2) + (bool32(flags.3) + (be64(sizes.0) + (
    be64(sizes.1) + (be64(sizes.2) + (be64(delta.seconds as u64) + be32(delta.nseconds))))))))
}

/// Whether what is known of a file system is what was written: transfers are bounded by the
/// smaller of what the server and the client take, and each property has a bit of its own.
#[verifier::opaque]
pub open spec fn info_fits(
    info: FSInfo,
    flags: (bool, bool, bool, bool),
    sizes: (u64, u64, u64),
    delta: Time,
    rsize: u32,
    wsize: u32,
) -> bool {
    &&& info.maxfilesize == sizes.0
    &&& info.time_delta == delta
    &&& info.rtmax <= sizes.1 && info.rtmax <= rsize
    &&& info.rtmax == sizes.1 || info.rtmax == rsize
    &&& info.rtpref == info.rtmax
    &&& info.wtmax <= sizes.2 && info.wtmax <= wsize
    &&& info.wtmax == sizes.2 || info.wtmax == wsize
    &&& info.wtpref == info.wtmax
    &&& info.rtmult == 1 && info.wtmult == 1 && info.dtpref == 0
    &&& info.properties % 2 == 1 <==> flags.0
    &&& info.properties / 2 % 2 == 1 <==> flags.1
    &&& info.properties / 4 % 2 == 0
    &&& info.properties / 8 % 2 == 1 <==> flags.3
    &&& info.properties / 16 == 1 <==> flags.2
    &&& info.properties < 32
}

/// What a file system can do is read back as it was written.
pub proof fn law_fsinfo_is_read_back(
    tag: Seq<u8>,
    mask: Seq<u32>,
    flags: (bool, bool, bool, bool),
    sizes: (u64, u64, u64),
    delta: Time,
    rsize: u32,
    wsize: u32,
    tail: Seq<u8>,
)
    requires
        tag.len() <= u32::MAX,
        mask.len() <= u32::MAX,
        holds_attr(mask, 5),
        holds_attr(mask, 6),
        holds_attr(mask, 15),
        holds_attr(mask, 26),
        holds_attr(mask, 27),
        holds_attr(mask, 30),
        holds_attr(mask, 31),
        holds_attr(mask, 51),
    ensures
        ({
            let read = fsinfo_response(
                written_attrs(tag, mask, written_fsinfo(flags, sizes, delta), tail),
                rsize,
                wsize,
            );
            read is Ok && info_fits(read->Ok_0, flags, sizes, delta, rsize, wsize)
        }),
{
    let values = written_fsinfo(flags, sizes, delta);
    let info = info_of(flags, sizes, delta, rsize, wsize);
    lemma_fsinfo_values(mask, flags, sizes, delta, rsize, wsize);
    lemma_queried(tag, mask, values, tail, "fsinfo"@);
    lemma_nothing_missing(mask, seq![5u32, 6, 15, 27, 30, 31, 51], "FSINFO"@);
    lemma_fsinfo_of(
        written_attrs(tag, mask, values, tail),
        mask,
        values,
        info,
        rsize,
        wsize,
    );
    lemma_info_fits(flags, sizes, delta, rsize, wsize);
}

proof fn lemma_info_fits(
    flags: (bool, bool, bool, bool),
    sizes: (u64, u64, u64),
    delta: Time,
    rsize: u32,
    wsize: u32,
)
    ensures
        info_fits(
            info_of(flags, sizes, delta, rsize, wsize),
            flags,
            sizes,
            delta,
            rsize,
            wsize,
        ),
{
    reveal(info_fits);
}

/// Whether values hold what a file system can do.
#[verifier::opaque]
spec fn holds_fsinfo(mask: Seq<u32>, values: Seq<u8>, info: FSInfo, rsize: u32, wsize: u32) -> bool {
    fsinfo_values(mask, values, rsize, wsize) == Ok::<FSInfo, ErrorView>(info)
}

/// Whether values hold the sizes of what a file system can do.
#[verifier::opaque]
spec fn holds_sizes(values: Seq<u8>, info: FSInfo, rsize: u32, wsize: u32) -> bool {
    fsinfo_sizes(values, info.properties, rsize, wsize) == Ok::<FSInfo, ErrorView>(info)
}

proof fn lemma_fsinfo_of(
    reply: Seq<u8>,
    mask: Seq<u32>,
    values: Seq<u8>,
    info: FSInfo,
    rsize: u32,
    wsize: u32,
)
    requires
        answers(reply, "fsinfo"@, mask, values),
        has_all(mask, seq![5u32, 6, 15, 27, 30, 31, 51], "FSINFO"@),
        holds_fsinfo(mask, values, info, rsize, wsize),
    ensures
        fsinfo_response(reply, rsize, wsize) == Ok::<FSInfo, ErrorView>(info),
{
    reveal(holds_fsinfo);
    reveal(answers);
    reveal(has_all);
}

/// What is known of a file system from what was written.
spec fn info_of(
    flags: (bool, bool, bool, bool),
    sizes: (u64, u64, u64),
    delta: Time,
    rsize: u32,
    wsize: u32,
) -> FSInfo {
    FSInfo {
        rtmax: smaller(sizes.1, rsize),
        rtpref: smaller(sizes.1, rsize),
        rtmult: 1,
        wtmax: smaller(sizes.2, wsize),
        wtpref: smaller(sizes.2, wsize),
        wtmult: 1,
        dtpref: 0,
        maxfilesize: sizes.0,
        time_delta: delta,
        properties: property_bits(flags.0, flags.1, flags.3, flags.2),
    }
}

proof fn lemma_fsinfo_values(
    mask: Seq<u32>,
    flags: (bool, bool, bool, bool),
    sizes: (u64, u64, u64),
    delta: Time,
    rsize: u32,
    wsize: u32,
)
    requires
        holds_attr(mask, 26),
    ensures
        written_fsinfo(flags, sizes, delta).len() == 52,
        holds_fsinfo(
            mask,
            written_fsinfo(flags, sizes, delta),
            info_of(flags, sizes, delta, rsize, wsize),
            rsize,
            wsize,
        ),
{
    reveal(written_fsinfo);
    let rest = be64(sizes.0) + (be64(sizes.1) + (be64(sizes.2) + (be64(delta.seconds as u64) + be32(
        delta.nseconds,
    ))));
    let info = info_of(flags, sizes, delta, rsize, wsize);
    lemma_fsinfo_sizes(sizes, delta, info, rsize, wsize);
    lemma_fsinfo_flags(mask, flags, rest, info, rsize, wsize);
}

proof fn lemma_fsinfo_flags(
    mask: Seq<u32>,
    flags: (bool, bool, bool, bool),
    sizes: Seq<u8>,
    info: FSInfo,
    rsize: u32,
    wsize: u32,
)
    requires
        holds_attr(mask, 26),
        info.properties == property_bits(flags.0, flags.1, flags.3, flags.2),
        holds_sizes(sizes, info, rsize, wsize),
    ensures
        holds_fsinfo(
            mask,
            bool32(flags.0) + (bool32(flags.1) + (bool32(flags.2) + (bool32(flags.3) + sizes))),
            info,
            rsize,
            wsize,
        ),
{
    reveal(holds_fsinfo);
    reveal(holds_sizes);
    let same = bool32(flags.3) + sizes;
    let set = bool32(flags.2) + same;
    let soft = bool32(flags.1) + set;
    lemma_bool_attr(flags.0, soft, "link_support"@);
    lemma_bool_attr(flags.1, set, "symlink_support"@);
    lemma_bool_attr(flags.2, same, "cansettime"@);
    lemma_bool_attr(flags.3, sizes, "homogeneous"@);
}

proof fn lemma_fsinfo_sizes(
    sizes: (u64, u64, u64),
    delta: Time,
    info: FSInfo,
    rsize: u32,
    wsize: u32,
)
    requires
        info == (FSInfo {
            rtmax: smaller(sizes.1, rsize),
            rtpref: smaller(sizes.1, rsize),
            rtmult: 1,
            wtmax: smaller(sizes.2, wsize),
            wtpref: smaller(sizes.2, wsize),
            wtmult: 1,
            dtpref: 0,
            maxfilesize: sizes.0,
            time_delta: delta,
            properties: info.properties,
        }),
    ensures
        holds_sizes(
            be64(sizes.0) + (be64(sizes.1) + (be64(sizes.2) + (be64(delta.seconds as u64) + be32(
                delta.nseconds,
            )))),
            info,
            rsize,
            wsize,
        ),
{
    reveal(holds_sizes);
    let time = be64(delta.seconds as u64) + be32(delta.nseconds);
    let write = be64(sizes.2) + time;
    let read = be64(sizes.1) + write;
    lemma_u64_attr(sizes.0, read, "maxfilesize"@);
    lemma_u64_attr(sizes.1, write, "maxread"@);
    lemma_u64_attr(sizes.2, time, "maxwrite"@);
    assert(time_delta(time) == Ok::<(Time, Seq<u8>), ErrorView>((delta, Seq::empty()))) by {
        broadcast use crate::wire::group_front;

        assert(time.skip(12) =~= Seq::<u8>::empty());
    }
}

} // verus!
