//! NFSv4.1 COMPOUND replies.
//!
//! A reply holds one result per operation. Where a result ends depends on its opcode, so
//! the decoder walks over each one to find the next.

use bytes::Bytes;
use vstd::prelude::*;
use vstd::string::StringExecFns;
use vstd::utf8::{decode_utf8, valid_utf8};

use crate::buffer::{advance, as_slice, contents, duplicate, get_u32, prefix, remaining};
use crate::error::{decode_nfsstat4, xdr_error, ErrorView, NfsError, Result};
use crate::nfs4::acl::{ace, decode_nfsace4};
use crate::nfs4::status::{status_word, Nfs4ErrorCode};
use crate::nfs41::compound::{opcode, operation, OpNum};
use crate::text::{around_number, concat2, decimal, push_decimal, utf8_error_text, utf8_text, with_number};
use crate::xdr::{be32, lemma_word_of_be32, padded, padded_len, tail_of, word};

verus! {

broadcast use crate::xdr::group_tails;

// Limits for server-provided lengths: no reply makes the decoder allocate without bound.
pub const MAX_COMPOUND_OPS: usize = 256;

pub const MAX_BITMAP_WORDS: usize = 16;

pub const MAX_ENTRY4_PER_PAGE: usize = 65536;

pub const MAX_LAYOUT_SEGMENTS: usize = 1024;

pub const MAX_GSS_HANDLES: usize = 64;

/// The status of a LOCK result that carries the lock in the way.
pub const NFS4ERR_DENIED: u32 = 10010;

/// What is left after walking over something, or why the walk failed.
pub type Rest = std::result::Result<Seq<u8>, ErrorView>;

/// `step` after a walk that succeeded.
pub open spec fn follow(walk: Rest, step: spec_fn(Seq<u8>) -> Rest) -> Rest {
    match walk {
        Ok(rest) => step(rest),
        Err(error) => Err(error),
    }
}

/// `step` done `count` times.
pub open spec fn repeated(s: Seq<u8>, count: nat, step: spec_fn(Seq<u8>) -> Rest) -> Rest
    decreases count,
{
    if count == 0 {
        Ok(s)
    } else {
        match step(s) {
            Ok(rest) => repeated(rest, (count - 1) as nat, step),
            Err(error) => Err(error),
        }
    }
}

/// Walks over `count` bytes.
pub open spec fn fixed(s: Seq<u8>, count: nat, text: Seq<char>) -> Rest {
    if s.len() < count {
        Err(ErrorView::Xdr(text))
    } else {
        Ok(s.skip(count as int))
    }
}

/// Walks over bytes with their length in front.
pub open spec fn var_bytes(s: Seq<u8>) -> Rest {
    if s.len() < 4 {
        Err(ErrorView::Xdr("opaque length truncated"@))
    } else {
        fixed(s.skip(4), padded(word(s) as nat), "opaque data truncated"@)
    }
}

/// Walks over an attribute bitmap.
pub open spec fn bitmap(s: Seq<u8>) -> Rest {
    if s.len() < 4 {
        Err(ErrorView::Xdr("bitmap length truncated"@))
    } else if word(s) > MAX_BITMAP_WORDS {
        Err(
            ErrorView::Xdr(
                "bitmap has "@ + decimal(word(s) as nat) + " words, max "@ + decimal(
                    MAX_BITMAP_WORDS as nat,
                ),
            ),
        )
    } else {
        fixed(s.skip(4), (word(s) * 4) as nat, "bitmap data truncated"@)
    }
}

/// Walks over attributes: the bitmap and the values.
pub open spec fn fattr4(s: Seq<u8>) -> Rest {
    follow(bitmap(s), |s: Seq<u8>| var_bytes(s))
}

/// Walks over a change_info4: a flag and two change numbers.
pub open spec fn change_info(s: Seq<u8>) -> Rest {
    fixed(s, 20, "change_info truncated"@)
}

/// Walks over a stateid4.
pub open spec fn stateid4(s: Seq<u8>) -> Rest {
    fixed(s, 16, "stateid4 truncated"@)
}

/// Walks over words with their number in front.
pub open spec fn word_array(s: Seq<u8>, no_count: Seq<char>, no_data: Seq<char>) -> Rest {
    if s.len() < 4 {
        Err(ErrorView::Xdr(no_count))
    } else {
        fixed(s.skip(4), (word(s) * 4) as nat, no_data)
    }
}

/// Walks over the entries of a directory page, of which `seen` have come already.
pub open spec fn entries(s: Seq<u8>, seen: nat) -> Rest
    decreases s.len(),
{
    if s.len() < 4 {
        Err(ErrorView::Xdr("entry4 list truncated"@))
    } else if word(s) == 0 {
        fixed(s.skip(4), 4, "dirlist4 eof truncated"@)
    } else if seen + 1 > MAX_ENTRY4_PER_PAGE {
        Err(ErrorView::Xdr("entry4 list exceeds max "@ + decimal(MAX_ENTRY4_PER_PAGE as nat)))
    } else {
        match entry(s.skip(4)) {
            Ok(rest) => if rest.len() < s.len() {
                entries(rest, seen + 1)
            } else {
                Err(ErrorView::Xdr("entry4 list truncated"@))
            },
            Err(error) => Err(error),
        }
    }
}

/// Walks over one directory entry: its cookie, name and attributes.
pub open spec fn entry(s: Seq<u8>) -> Rest {
    follow(
        follow(fixed(s, 8, "entry4 cookie truncated"@), |s: Seq<u8>| var_bytes(s)),
        |s: Seq<u8>| fattr4(s),
    )
}

/// Walks over an access control entry.
pub open spec fn ace_rest(s: Seq<u8>) -> Rest {
    match ace(s) {
        Ok((_, rest)) => Ok(rest),
        Err(error) => Err(error),
    }
}

/// Walks over the limit of a write delegation.
pub open spec fn space_limit(s: Seq<u8>) -> Rest {
    if s.len() < 4 {
        Err(ErrorView::Xdr("space_limit type truncated"@))
    } else if word(s) == 1 {
        fixed(s.skip(4), 8, "space_limit size truncated"@)
    } else if word(s) == 2 {
        fixed(s.skip(4), 8, "space_limit blocks truncated"@)
    } else {
        Err(ErrorView::Xdr("unknown limit_by "@ + decimal(word(s) as nat)))
    }
}

/// Walks over what read and write delegations begin with: the state and the recall flag.
pub open spec fn delegation_head(s: Seq<u8>) -> Rest {
    follow(stateid4(s), |s: Seq<u8>| fixed(s, 4, "delegation recall truncated"@))
}

/// Walks over why no delegation was granted.
pub open spec fn why_no_delegation(s: Seq<u8>) -> Rest {
    if s.len() < 4 {
        Err(ErrorView::Xdr("why_no_deleg truncated"@))
    } else if word(s) == 1 || word(s) == 2 {
        fixed(s.skip(4), 4, "why_no_deleg bool truncated"@)
    } else {
        Ok(s.skip(4))
    }
}

/// Walks over an open_delegation4.
pub open spec fn open_delegation(s: Seq<u8>) -> Rest {
    if s.len() < 4 {
        Err(ErrorView::Xdr("open_delegation type truncated"@))
    } else if word(s) == 0 {
        Ok(s.skip(4))
    } else if word(s) == 1 {
        follow(delegation_head(s.skip(4)), |s: Seq<u8>| ace_rest(s))
    } else if word(s) == 2 {
        follow(
            follow(delegation_head(s.skip(4)), |s: Seq<u8>| space_limit(s)),
            |s: Seq<u8>| ace_rest(s),
        )
    } else if word(s) == 3 {
        why_no_delegation(s.skip(4))
    } else {
        Err(ErrorView::Xdr("unknown delegation type "@ + decimal(word(s) as nat)))
    }
}

/// Walks over the two bitmaps of protected operations.
pub open spec fn protected_ops(s: Seq<u8>) -> Rest {
    follow(bitmap(s), |s: Seq<u8>| bitmap(s))
}

/// Walks over GSS handles with their number in front.
pub open spec fn gss_handles(s: Seq<u8>) -> Rest {
    if s.len() < 4 {
        Err(ErrorView::Xdr("SP4_SSV gss_handles len truncated"@))
    } else if word(s) > MAX_GSS_HANDLES {
        Err(
            ErrorView::Xdr(
                "SP4_SSV has "@ + decimal(word(s) as nat) + " gss_handles, max 64"@,
            ),
        )
    } else {
        repeated(s.skip(4), word(s) as nat, |s: Seq<u8>| var_bytes(s))
    }
}

/// Walks over the state protection of EXCHANGE_ID.
pub open spec fn state_protect(s: Seq<u8>) -> Rest {
    if s.len() < 4 {
        Err(ErrorView::Xdr("state_protect4_r type truncated"@))
    } else if word(s) == 0 {
        Ok(s.skip(4))
    } else if word(s) == 1 {
        protected_ops(s.skip(4))
    } else if word(s) == 2 {
        follow(
            follow(
                protected_ops(s.skip(4)),
                |s: Seq<u8>| fixed(s, 16, "SP4_SSV fields truncated"@),
            ),
            |s: Seq<u8>| gss_handles(s),
        )
    } else {
        Err(ErrorView::Xdr("unsupported state_protect type "@ + decimal(word(s) as nat)))
    }
}

/// Walks over one nfs_impl_id4: domain, name and date.
pub open spec fn impl_id(s: Seq<u8>) -> Rest {
    follow(
        follow(var_bytes(s), |s: Seq<u8>| var_bytes(s)),
        |s: Seq<u8>| fixed(s, 12, "impl_id time truncated"@),
    )
}

/// Walks over at most one nfs_impl_id4.
pub open spec fn impl_ids(s: Seq<u8>) -> Rest {
    if s.len() < 4 {
        Err(ErrorView::Xdr("impl_id array len truncated"@))
    } else if word(s) > 1 {
        Err(
            ErrorView::Xdr(
                "nfs_impl_id4 has "@ + decimal(word(s) as nat) + " elements, max 1"@,
            ),
        )
    } else if word(s) == 1 {
        impl_id(s.skip(4))
    } else {
        Ok(s.skip(4))
    }
}

/// Walks over the server's owner (a number and an identifier) and scope.
pub open spec fn server_owner_and_scope(s: Seq<u8>) -> Rest {
    follow(
        follow(fixed(s, 8, "server_owner minor_id truncated"@), |s: Seq<u8>| var_bytes(s)),
        |s: Seq<u8>| var_bytes(s),
    )
}

/// Walks over EXCHANGE_ID4resok.
pub open spec fn exchange_id_result(s: Seq<u8>) -> Rest {
    follow(
        follow(
            follow(fixed(s, 16, "EXCHANGE_ID result truncated"@), |s: Seq<u8>| state_protect(s)),
            |s: Seq<u8>| server_owner_and_scope(s),
        ),
        |s: Seq<u8>| impl_ids(s),
    )
}

/// Walks over one channel_attrs4: six words and the RDMA words.
pub open spec fn channel_attrs4(s: Seq<u8>) -> Rest {
    follow(
        fixed(s, 24, "channel_attrs truncated"@),
        |s: Seq<u8>| word_array(s, "ca_rdma_ird length truncated"@, "ca_rdma_ird data truncated"@),
    )
}

/// Walks over CREATE_SESSION4resok: the session and the attributes of two channels.
pub open spec fn create_session_result(s: Seq<u8>) -> Rest {
    follow(
        follow(fixed(s, 24, "CREATE_SESSION result truncated"@), |s: Seq<u8>| channel_attrs4(s)),
        |s: Seq<u8>| channel_attrs4(s),
    )
}

/// Walks over one layout4: its range, mode and type, then its content.
pub open spec fn layout_segment(s: Seq<u8>) -> Rest {
    follow(fixed(s, 24, "layout4 segment truncated"@), |s: Seq<u8>| var_bytes(s))
}

/// Walks over layouts with their number in front.
pub open spec fn layout_segments(s: Seq<u8>) -> Rest {
    if s.len() < 4 {
        Err(ErrorView::Xdr("LAYOUTGET segments len truncated"@))
    } else if word(s) > MAX_LAYOUT_SEGMENTS {
        Err(
            ErrorView::Xdr(
                "LAYOUTGET has "@ + decimal(word(s) as nat) + " segments, max "@ + decimal(
                    MAX_LAYOUT_SEGMENTS as nat,
                ),
            ),
        )
    } else {
        repeated(s.skip(4), word(s) as nat, |s: Seq<u8>| layout_segment(s))
    }
}

/// Walks over a new size where one is announced and there is room for it.
pub open spec fn new_size(s: Seq<u8>) -> Rest {
    if s.len() < 4 {
        Err(ErrorView::Xdr("LAYOUTCOMMIT result truncated"@))
    } else if word(s) != 0 && s.len() >= 12 {
        Ok(s.skip(12))
    } else {
        Ok(s.skip(4))
    }
}

/// Walks over a state where one is announced.
pub open spec fn optional_stateid(s: Seq<u8>) -> Rest {
    if s.len() < 4 {
        Err(ErrorView::Xdr("LAYOUTRETURN result truncated"@))
    } else if word(s) != 0 {
        stateid4(s.skip(4))
    } else {
        Ok(s.skip(4))
    }
}

/// Walks over the result of an operation that succeeded.
pub open spec fn success_result(op: OpNum, s: Seq<u8>) -> Rest {
    match op {
        OpNum::PutRootFh
        | OpNum::PutFh
        | OpNum::SaveFh
        | OpNum::RestoreFh
        | OpNum::Lookup
        | OpNum::Lookupp
        | OpNum::ReclaimComplete
        | OpNum::DestroySession
        | OpNum::DestroyClientId
        | OpNum::DelegReturn
        | OpNum::OpenAttr
        | OpNum::Lockt
        | OpNum::FreeStateId => Ok(s),
        OpNum::Sequence => fixed(s, 36, "SEQUENCE result truncated"@),
        OpNum::GetFh => var_bytes(s),
        OpNum::GetAttr => fattr4(s),
        OpNum::SetAttr => bitmap(s),
        OpNum::Access => fixed(s, 8, "ACCESS result truncated"@),
        OpNum::Read => follow(
            fixed(s, 4, "READ result truncated"@),
            |s: Seq<u8>| var_bytes(s),
        ),
        OpNum::Write => fixed(s, 16, "WRITE result truncated"@),
        OpNum::Commit => fixed(s, 8, "COMMIT result truncated"@),
        OpNum::ReadDir => follow(
            fixed(s, 8, "READDIR result truncated"@),
            |s: Seq<u8>| entries(s, 0),
        ),
        OpNum::ReadLink => var_bytes(s),
        OpNum::Open => follow(
            follow(
                follow(
                    follow(stateid4(s), |s: Seq<u8>| change_info(s)),
                    |s: Seq<u8>| fixed(s, 4, "OPEN rflags truncated"@),
                ),
                |s: Seq<u8>| bitmap(s),
            ),
            |s: Seq<u8>| open_delegation(s),
        ),
        OpNum::Close | OpNum::Lock | OpNum::Locku => stateid4(s),
        OpNum::TestStateId => word_array(
            s,
            "TEST_STATEID result truncated"@,
            "TEST_STATEID statuses truncated"@,
        ),
        OpNum::Create => follow(change_info(s), |s: Seq<u8>| bitmap(s)),
        OpNum::Remove | OpNum::Link => change_info(s),
        OpNum::Rename => follow(change_info(s), |s: Seq<u8>| change_info(s)),
        OpNum::ExchangeId => exchange_id_result(s),
        OpNum::CreateSession => create_session_result(s),
        OpNum::LayoutGet => follow(
            fixed(s, 20, "LAYOUTGET result truncated"@),
            |s: Seq<u8>| layout_segments(s),
        ),
        OpNum::LayoutCommit => new_size(s),
        OpNum::LayoutReturn => optional_stateid(s),
        OpNum::GetDeviceInfo => follow(
            follow(
                fixed(s, 4, "GETDEVICEINFO layout_type truncated"@),
                |s: Seq<u8>| var_bytes(s),
            ),
            |s: Seq<u8>| bitmap(s),
        ),
        OpNum::BindConnToSession => fixed(s, 24, "BIND_CONN_TO_SESSION result truncated"@),
    }
}

/// Walks over the result of an operation that failed: nothing, but for the attributes that
/// SETATTR set and the lock that LOCK ran into.
pub open spec fn failure_result(number: u32, status: u32, s: Seq<u8>) -> Rest {
    if number == opcode(OpNum::SetAttr) {
        bitmap(s)
    } else if number == opcode(OpNum::Lock) && status == NFS4ERR_DENIED && s.len() >= 28 {
        var_bytes(s.skip(28))
    } else {
        Ok(s)
    }
}

/// Walks over the result of an operation.
#[verifier::opaque]
pub open spec fn op_result(number: u32, status: u32, s: Seq<u8>) -> Rest {
    if status != 0 {
        failure_result(number, status, s)
    } else {
        match operation(number) {
            Some(op) => success_result(op, s),
            None => Err(
                ErrorView::Xdr(
                    "unknown op "@ + decimal(number as nat)
                        + " in COMPOUND response, cannot skip"@,
                ),
            ),
        }
    }
}

/// Whether a walk over `s` went as expected. One that fails may have walked over a part of
/// the bytes already, but what is left is always the end of them.
pub open spec fn walked(result: Result<()>, s: Seq<u8>, left: Seq<u8>, expected: Rest) -> bool {
    &&& tail_of(left, s)
    &&& match expected {
        Ok(rest) => result is Ok && left == rest,
        Err(error) => result is Err && result->Err_0@ == error,
    }
}

fn skip_fixed(buf: &mut Bytes, count: usize, text: &str) -> (result: Result<()>)
    ensures
        walked(
            result,
            contents(*old(buf)),
            contents(*final(buf)),
            fixed(contents(*old(buf)), count as nat, text@),
        ),
{
    if remaining(buf) < count {
        return Err(xdr_error(text));
    }
    advance(buf, count);
    Ok(())
}

/// Reads a word, or fails with the given text.
fn read_word(buf: &mut Bytes, text: &str) -> (value: Result<u32>)
    ensures
        tail_of(contents(*final(buf)), contents(*old(buf))),
        if contents(*old(buf)).len() < 4 {
            value is Err && value->Err_0@ == ErrorView::Xdr(text@) && contents(*final(buf))
                == contents(*old(buf))
        } else {
            value is Ok && value->Ok_0 == word(contents(*old(buf))) && contents(*final(buf))
                == contents(*old(buf)).skip(4)
        },
{
    if remaining(buf) < 4 {
        return Err(xdr_error(text));
    }
    Ok(get_u32(buf))
}

pub fn skip_var_bytes(buf: &mut Bytes) -> (result: Result<()>)
    ensures
        walked(
            result,
            contents(*old(buf)),
            contents(*final(buf)),
            var_bytes(contents(*old(buf))),
        ),
{
    let len: u32 = read_word(buf, "opaque length truncated")?;
    let padded: u64 = padded_len(len);
    if (remaining(buf) as u64) < padded {
        return Err(xdr_error("opaque data truncated"));
    }
    advance(buf, padded as usize);
    assert(tail_of(contents(*buf), contents(*old(buf)).skip(4)));
    Ok(())
}

pub fn skip_bitmap(buf: &mut Bytes) -> (result: Result<()>)
    ensures
        walked(
            result,
            contents(*old(buf)),
            contents(*final(buf)),
            bitmap(contents(*old(buf))),
        ),
{
    let n: u32 = read_word(buf, "bitmap length truncated")?;
    if n as u64 > MAX_BITMAP_WORDS as u64 {
        let mut text = around_number("bitmap has ", n as u64, " words, max ");
        push_decimal(&mut text, MAX_BITMAP_WORDS as u64);
        return Err(NfsError::Xdr(text));
    }
    skip_fixed(buf, n as usize * 4, "bitmap data truncated")
}

pub fn skip_fattr4(buf: &mut Bytes) -> (result: Result<()>)
    ensures
        walked(
            result,
            contents(*old(buf)),
            contents(*final(buf)),
            fattr4(contents(*old(buf))),
        ),
{
    skip_bitmap(buf)?;
    skip_var_bytes(buf)
}

pub fn skip_change_info(buf: &mut Bytes) -> (result: Result<()>)
    ensures
        walked(
            result,
            contents(*old(buf)),
            contents(*final(buf)),
            change_info(contents(*old(buf))),
        ),
{
    skip_fixed(buf, 20, "change_info truncated")
}

pub fn skip_stateid4(buf: &mut Bytes) -> (result: Result<()>)
    ensures
        walked(
            result,
            contents(*old(buf)),
            contents(*final(buf)),
            stateid4(contents(*old(buf))),
        ),
{
    skip_fixed(buf, 16, "stateid4 truncated")
}

fn skip_word_array(buf: &mut Bytes, no_count: &str, no_data: &str) -> (result: Result<()>)
    ensures
        walked(
            result,
            contents(*old(buf)),
            contents(*final(buf)),
            word_array(contents(*old(buf)), no_count@, no_data@),
        ),
{
    let n: u32 = read_word(buf, no_count)?;
    let needed: u64 = n as u64 * 4;
    if (remaining(buf) as u64) < needed {
        return Err(xdr_error(no_data));
    }
    advance(buf, needed as usize);
    assert(tail_of(contents(*buf), contents(*old(buf)).skip(4)));
    Ok(())
}

pub fn skip_entry4_list(buf: &mut Bytes) -> (result: Result<()>)
    ensures
        walked(
            result,
            contents(*old(buf)),
            contents(*final(buf)),
            entries(contents(*old(buf)), 0),
        ),
{
    let mut count: usize = 0;
    loop
        invariant
            count <= MAX_ENTRY4_PER_PAGE,
            entries(contents(*buf), count as nat) == entries(contents(*old(buf)), 0),
            tail_of(contents(*buf), contents(*old(buf))),
        decreases contents(*buf).len(),
    {
        let has_entry: u32 = read_word(buf, "entry4 list truncated")?;
        if has_entry == 0 {
            return skip_fixed(buf, 4, "dirlist4 eof truncated");
        }
        count += 1;
        if count > MAX_ENTRY4_PER_PAGE {
            return Err(
                NfsError::Xdr(with_number("entry4 list exceeds max ", MAX_ENTRY4_PER_PAGE as u64)),
            );
        }
        skip_fixed(buf, 8, "entry4 cookie truncated")?;
        skip_var_bytes(buf)?;
        skip_fattr4(buf)?;
    }
}

pub fn skip_space_limit(buf: &mut Bytes) -> (result: Result<()>)
    ensures
        walked(
            result,
            contents(*old(buf)),
            contents(*final(buf)),
            space_limit(contents(*old(buf))),
        ),
{
    let limit_by: u32 = read_word(buf, "space_limit type truncated")?;
    match limit_by {
        // NFS_LIMIT_SIZE
        1 => skip_fixed(buf, 8, "space_limit size truncated"),
        // NFS_LIMIT_BLOCKS
        2 => skip_fixed(buf, 8, "space_limit blocks truncated"),
        _ => Err(NfsError::Xdr(with_number("unknown limit_by ", limit_by as u64))),
    }
}

fn skip_delegation_head(buf: &mut Bytes) -> (result: Result<()>)
    ensures
        walked(
            result,
            contents(*old(buf)),
            contents(*final(buf)),
            delegation_head(contents(*old(buf))),
        ),
{
    skip_stateid4(buf)?;
    skip_fixed(buf, 4, "delegation recall truncated")
}

fn skip_ace(buf: &mut Bytes) -> (result: Result<()>)
    ensures
        walked(
            result,
            contents(*old(buf)),
            contents(*final(buf)),
            ace_rest(contents(*old(buf))),
        ),
{
    let _ = decode_nfsace4(buf)?;
    Ok(())
}

pub fn skip_open_delegation(buf: &mut Bytes) -> (result: Result<()>)
    ensures
        walked(
            result,
            contents(*old(buf)),
            contents(*final(buf)),
            open_delegation(contents(*old(buf))),
        ),
{
    let deleg_type: u32 = read_word(buf, "open_delegation type truncated")?;
    match deleg_type {
        // OPEN_DELEGATE_NONE
        0 => Ok(()),
        // OPEN_DELEGATE_READ
        1 => {
            skip_delegation_head(buf)?;
            skip_ace(buf)
        },
        // OPEN_DELEGATE_WRITE
        2 => {
            skip_delegation_head(buf)?;
            skip_space_limit(buf)?;
            skip_ace(buf)
        },
        // OPEN_DELEGATE_NONE_EXT
        3 => {
            let why: u32 = read_word(buf, "why_no_deleg truncated")?;
            match why {
                // WND4_CONTENTION or WND4_RESOURCE
                1 | 2 => skip_fixed(buf, 4, "why_no_deleg bool truncated"),
                _ => Ok(()),
            }
        },
        _ => Err(NfsError::Xdr(with_number("unknown delegation type ", deleg_type as u64))),
    }
}

fn skip_protected_ops(buf: &mut Bytes) -> (result: Result<()>)
    ensures
        walked(
            result,
            contents(*old(buf)),
            contents(*final(buf)),
            protected_ops(contents(*old(buf))),
        ),
{
    skip_bitmap(buf)?;
    skip_bitmap(buf)
}

fn skip_gss_handles(buf: &mut Bytes) -> (result: Result<()>)
    ensures
        walked(
            result,
            contents(*old(buf)),
            contents(*final(buf)),
            gss_handles(contents(*old(buf))),
        ),
{
    let nh: u32 = read_word(buf, "SP4_SSV gss_handles len truncated")?;
    if nh as u64 > MAX_GSS_HANDLES as u64 {
        return Err(NfsError::Xdr(around_number("SP4_SSV has ", nh as u64, " gss_handles, max 64")));
    }
    let ghost step = |s: Seq<u8>| var_bytes(s);
    let mut i: u32 = 0;
    while i < nh
        invariant
            i <= nh,
            step == (|s: Seq<u8>| var_bytes(s)),
            gss_handles(contents(*old(buf))) == repeated(contents(*buf), (nh - i) as nat, step),
            tail_of(contents(*buf), contents(*old(buf))),
        decreases nh - i,
    {
        skip_var_bytes(buf)?;
        i += 1;
    }
    Ok(())
}

fn skip_state_protect(buf: &mut Bytes) -> (result: Result<()>)
    ensures
        walked(
            result,
            contents(*old(buf)),
            contents(*final(buf)),
            state_protect(contents(*old(buf))),
        ),
{
    let sp: u32 = read_word(buf, "state_protect4_r type truncated")?;
    match sp {
        // SP4_NONE
        0 => Ok(()),
        // SP4_MACH_CRED
        1 => skip_protected_ops(buf),
        // SP4_SSV
        2 => {
            skip_protected_ops(buf)?;
            // hash_alg + encr_alg + ssv_len + window
            skip_fixed(buf, 16, "SP4_SSV fields truncated")?;
            skip_gss_handles(buf)
        },
        _ => Err(NfsError::Xdr(with_number("unsupported state_protect type ", sp as u64))),
    }
}

fn skip_impl_ids(buf: &mut Bytes) -> (result: Result<()>)
    ensures
        walked(
            result,
            contents(*old(buf)),
            contents(*final(buf)),
            impl_ids(contents(*old(buf))),
        ),
{
    let n: u32 = read_word(buf, "impl_id array len truncated")?;
    if n > 1 {
        return Err(NfsError::Xdr(around_number("nfs_impl_id4 has ", n as u64, " elements, max 1")));
    }
    if n == 1 {
        skip_var_bytes(buf)?;
        skip_var_bytes(buf)?;
        // nfstime4
        skip_fixed(buf, 12, "impl_id time truncated")?;
    }
    Ok(())
}

pub fn skip_exchange_id_result(buf: &mut Bytes) -> (result: Result<()>)
    ensures
        walked(
            result,
            contents(*old(buf)),
            contents(*final(buf)),
            exchange_id_result(contents(*old(buf))),
        ),
{
    // clientid(8) + sequenceid(4) + flags(4)
    skip_fixed(buf, 16, "EXCHANGE_ID result truncated")?;
    skip_state_protect(buf)?;
    // server_owner4: minor_id(8) + major_id(var)
    skip_fixed(buf, 8, "server_owner minor_id truncated")?;
    skip_var_bytes(buf)?;
    // server_scope
    skip_var_bytes(buf)?;
    skip_impl_ids(buf)
}

fn skip_channel_attrs(buf: &mut Bytes) -> (result: Result<()>)
    ensures
        walked(
            result,
            contents(*old(buf)),
            contents(*final(buf)),
            channel_attrs4(contents(*old(buf))),
        ),
{
    skip_fixed(buf, 24, "channel_attrs truncated")?;
    skip_word_array(buf, "ca_rdma_ird length truncated", "ca_rdma_ird data truncated")
}

pub fn skip_create_session_result(buf: &mut Bytes) -> (result: Result<()>)
    ensures
        walked(
            result,
            contents(*old(buf)),
            contents(*final(buf)),
            create_session_result(contents(*old(buf))),
        ),
{
    // sessionid(16) + sequence(4) + flags(4)
    skip_fixed(buf, 24, "CREATE_SESSION result truncated")?;
    skip_channel_attrs(buf)?;
    skip_channel_attrs(buf)
}

fn skip_layout_segments(buf: &mut Bytes) -> (result: Result<()>)
    ensures
        walked(
            result,
            contents(*old(buf)),
            contents(*final(buf)),
            layout_segments(contents(*old(buf))),
        ),
{
    let n: u32 = read_word(buf, "LAYOUTGET segments len truncated")?;
    if n as u64 > MAX_LAYOUT_SEGMENTS as u64 {
        let mut text = around_number("LAYOUTGET has ", n as u64, " segments, max ");
        push_decimal(&mut text, MAX_LAYOUT_SEGMENTS as u64);
        return Err(NfsError::Xdr(text));
    }
    let ghost step = |s: Seq<u8>| layout_segment(s);
    let mut i: u32 = 0;
    while i < n
        invariant
            i <= n,
            step == (|s: Seq<u8>| layout_segment(s)),
            layout_segments(contents(*old(buf))) == repeated(contents(*buf), (n - i) as nat, step),
            tail_of(contents(*buf), contents(*old(buf))),
        decreases n - i,
    {
        skip_fixed(buf, 24, "layout4 segment truncated")?;
        skip_var_bytes(buf)?;
        i += 1;
    }
    Ok(())
}

fn skip_new_size(buf: &mut Bytes) -> (result: Result<()>)
    ensures
        walked(
            result,
            contents(*old(buf)),
            contents(*final(buf)),
            new_size(contents(*old(buf))),
        ),
{
    let has_newsize: u32 = read_word(buf, "LAYOUTCOMMIT result truncated")?;
    if has_newsize != 0 && remaining(buf) >= 8 {
        advance(buf, 8);
        assert(contents(*old(buf)).skip(4).skip(8) =~= contents(*old(buf)).skip(12));
    }
    Ok(())
}

fn skip_optional_stateid(buf: &mut Bytes) -> (result: Result<()>)
    ensures
        walked(
            result,
            contents(*old(buf)),
            contents(*final(buf)),
            optional_stateid(contents(*old(buf))),
        ),
{
    let has_stateid: u32 = read_word(buf, "LAYOUTRETURN result truncated")?;
    if has_stateid != 0 {
        skip_stateid4(buf)?;
    }
    Ok(())
}

fn skip_open_result(buf: &mut Bytes) -> (result: Result<()>)
    ensures
        walked(
            result,
            contents(*old(buf)),
            contents(*final(buf)),
            success_result(OpNum::Open, contents(*old(buf))),
        ),
{
    skip_stateid4(buf)?;
    skip_change_info(buf)?;
    skip_fixed(buf, 4, "OPEN rflags truncated")?;
    skip_bitmap(buf)?;
    skip_open_delegation(buf)
}

/// Skip past the result data of an operation that succeeded.
fn skip_success_result(op: OpNum, buf: &mut Bytes) -> (result: Result<()>)
    ensures
        walked(
            result,
            contents(*old(buf)),
            contents(*final(buf)),
            success_result(op, contents(*old(buf))),
        ),
{
    match op {
        OpNum::PutRootFh
        | OpNum::PutFh
        | OpNum::SaveFh
        | OpNum::RestoreFh
        | OpNum::Lookup
        | OpNum::Lookupp
        | OpNum::ReclaimComplete
        | OpNum::DestroySession
        | OpNum::DestroyClientId
        | OpNum::DelegReturn
        | OpNum::OpenAttr
        | OpNum::Lockt
        | OpNum::FreeStateId => Ok(()),
        // sessionid(16) + sequenceid(4) + slotid(4) + highest_slotid(4)
        // + target_highest_slotid(4) + status_flags(4)
        OpNum::Sequence => skip_fixed(buf, 36, "SEQUENCE result truncated"),
        OpNum::GetFh => skip_var_bytes(buf),
        OpNum::GetAttr => skip_fattr4(buf),
        OpNum::SetAttr => skip_bitmap(buf),
        // supported(4) + access(4)
        OpNum::Access => skip_fixed(buf, 8, "ACCESS result truncated"),
        // eof(4) + data<>
        OpNum::Read => {
            skip_fixed(buf, 4, "READ result truncated")?;
            skip_var_bytes(buf)
        },
        // count(4) + committed(4) + writeverf(8)
        OpNum::Write => skip_fixed(buf, 16, "WRITE result truncated"),
        // writeverf(8)
        OpNum::Commit => skip_fixed(buf, 8, "COMMIT result truncated"),
        // cookieverf(8) + dirlist4
        OpNum::ReadDir => {
            skip_fixed(buf, 8, "READDIR result truncated")?;
            skip_entry4_list(buf)
        },
        OpNum::ReadLink => skip_var_bytes(buf),
        // stateid(16) + change_info(20) + rflags(4) + bitmap + open_delegation4
        OpNum::Open => skip_open_result(buf),
        OpNum::Close | OpNum::Lock | OpNum::Locku => skip_stateid4(buf),
        OpNum::TestStateId => skip_word_array(
            buf,
            "TEST_STATEID result truncated",
            "TEST_STATEID statuses truncated",
        ),
        OpNum::Create => {
            skip_change_info(buf)?;
            skip_bitmap(buf)
        },
        OpNum::Remove | OpNum::Link => skip_change_info(buf),
        // source_cinfo + target_cinfo
        OpNum::Rename => {
            skip_change_info(buf)?;
            skip_change_info(buf)
        },
        OpNum::ExchangeId => skip_exchange_id_result(buf),
        OpNum::CreateSession => skip_create_session_result(buf),
        // return_on_close(4) + stateid(16) + layout4<>
        OpNum::LayoutGet => {
            skip_fixed(buf, 20, "LAYOUTGET result truncated")?;
            skip_layout_segments(buf)
        },
        OpNum::LayoutCommit => skip_new_size(buf),
        OpNum::LayoutReturn => skip_optional_stateid(buf),
        // layout_type(4) + da_addr_body<> + notification bitmap
        OpNum::GetDeviceInfo => {
            skip_fixed(buf, 4, "GETDEVICEINFO layout_type truncated")?;
            skip_var_bytes(buf)?;
            skip_bitmap(buf)
        },
        // sessionid(16) + dir(4) + use_conn_in_rdma_mode(4)
        OpNum::BindConnToSession => skip_fixed(buf, 24, "BIND_CONN_TO_SESSION result truncated"),
    }
}

/// Skip past the operation-specific result data in the COMPOUND response buffer.
pub fn skip_op_result(opcode: u32, status: u32, buf: &mut Bytes) -> (result: Result<()>)
    ensures
        walked(
            result,
            contents(*old(buf)),
            contents(*final(buf)),
            op_result(opcode, status, contents(*old(buf))),
        ),
        status == 0 && operation(opcode) is None ==> contents(*final(buf)) == contents(*old(buf)),
{
    reveal(op_result);
    if status != 0 {
        if opcode == OpNum::SetAttr.number() {
            return skip_bitmap(buf);
        }
        // LOCK4denied: offset(8) + length(8) + locktype(4) + lock_owner4(clientid(8) + owner<>)
        if opcode == OpNum::Lock.number() && status == NFS4ERR_DENIED && remaining(buf) >= 28 {
            advance(buf, 28);
            assert(tail_of(contents(*buf), contents(*old(buf))));
            return skip_var_bytes(buf);
        }
        return Ok(());
    }
    match OpNum::from_number(opcode) {
        Some(op) => skip_success_result(op, buf),
        None => Err(
            NfsError::Xdr(
                around_number(
                    "unknown op ",
                    opcode as u64,
                    " in COMPOUND response, cannot skip",
                ),
            ),
        ),
    }
}

/// The text at the front of `s` and what follows it.
pub open spec fn string(s: Seq<u8>) -> std::result::Result<(Seq<char>, Seq<u8>), ErrorView> {
    if s.len() < 4 {
        Err(ErrorView::Xdr("string length truncated"@))
    } else {
        let len = word(s) as nat;
        let rest = s.skip(4);
        if rest.len() < padded(len) {
            Err(ErrorView::Xdr("string data truncated"@))
        } else if !valid_utf8(rest.take(len as int)) {
            Err(
                ErrorView::Xdr(
                    "invalid UTF-8 in string: "@ + utf8_error_text(rest.take(len as int)),
                ),
            )
        } else {
            Ok((decode_utf8(rest.take(len as int)), rest.skip(padded(len) as int)))
        }
    }
}

pub fn decode_string(buf: &mut Bytes) -> (text: Result<String>)
    ensures
        match string(contents(*old(buf))) {
            Ok((expected, rest)) => text is Ok && text->Ok_0@ == expected && contents(*final(buf))
                == rest,
            Err(error) => text is Err && text->Err_0@ == error,
        },
{
    let len: u32 = read_word(buf, "string length truncated")?;
    let padded: u64 = padded_len(len);
    if (remaining(buf) as u64) < padded {
        return Err(xdr_error("string data truncated"));
    }
    let bytes = vstd::slice::slice_to_vec(as_slice(&prefix(buf, len as usize)));
    match utf8_text(bytes) {
        Ok(text) => {
            advance(buf, padded as usize);
            Ok(text)
        },
        Err(error) => Err(NfsError::Xdr(concat2("invalid UTF-8 in string: ", error.as_str()))),
    }
}

/// A single operation result: opcode, status and the bytes for the caller to decode.
#[derive(Debug)]
pub struct OpResponse {
    pub opcode: u32,
    pub status: Nfs4ErrorCode,
    /// Raw bytes of the operation-specific result (after status).
    /// For void results this is empty.
    pub data: Bytes,
}

/// A result as specifications see it.
#[verifier::ext_equal]
pub struct OpResponseView {
    pub opcode: u32,
    pub status: Nfs4ErrorCode,
    pub data: Seq<u8>,
}

impl View for OpResponse {
    type V = OpResponseView;

    open spec fn view(&self) -> OpResponseView {
        OpResponseView { opcode: self.opcode, status: self.status, data: contents(self.data) }
    }
}

/// Decoded COMPOUND4res: overall status + per-operation results.
#[derive(Debug)]
pub struct CompoundResponse {
    pub tag: String,
    pub status: Nfs4ErrorCode,
    pub results: Vec<OpResponse>,
    /// Local session generation that carried this response (zero before publication).
    pub session_generation: u64,
}

/// A reply as specifications see it.
#[verifier::ext_equal]
pub struct ResponseView {
    pub tag: Seq<char>,
    pub status: Nfs4ErrorCode,
    pub results: Seq<OpResponseView>,
    pub session_generation: u64,
}

/// What a sequence of results stands for.
pub open spec fn result_views(results: Seq<OpResponse>) -> Seq<OpResponseView> {
    Seq::new(results.len(), |i: int| results[i]@)
}

impl View for CompoundResponse {
    type V = ResponseView;

    open spec fn view(&self) -> ResponseView {
        ResponseView {
            tag: self.tag@,
            status: self.status,
            results: result_views(self.results@),
            session_generation: self.session_generation,
        }
    }
}

/// The `count` results at the front of `s`. Each one holds the bytes that it takes behind its
/// status.
pub open spec fn results(s: Seq<u8>, count: nat) -> std::result::Result<
    Seq<OpResponseView>,
    ErrorView,
>
    decreases count,
{
    if count == 0 {
        Ok(Seq::empty())
    } else if s.len() < 8 {
        Err(ErrorView::Xdr("COMPOUND response truncated at op header"@))
    } else {
        match status_word(word(s.skip(4))) {
            Err(error) => Err(error),
            Ok(status) => match op_result(word(s), word(s.skip(4)), s.skip(8)) {
                Err(error) => Err(error),
                Ok(rest) => match results(rest, (count - 1) as nat) {
                    Err(error) => Err(error),
                    Ok(tail) => {
                        let data = s.skip(8).take(s.skip(8).len() - rest.len());
                        Ok(seq![OpResponseView { opcode: word(s), status, data }] + tail)
                    },
                },
            },
        }
    }
}

/// The reply that a payload holds.
pub open spec fn response(s: Seq<u8>) -> std::result::Result<ResponseView, ErrorView> {
    if s.len() < 4 {
        Err(ErrorView::Xdr("COMPOUND response too short"@))
    } else {
        match status_word(word(s)) {
            Err(error) => Err(error),
            Ok(status) => match string(s.skip(4)) {
                Err(error) => Err(error),
                Ok((tag, rest)) => if rest.len() < 4 {
                    Err(ErrorView::Xdr("COMPOUND response missing resarray length"@))
                } else if word(rest) > MAX_COMPOUND_OPS {
                    Err(
                        ErrorView::Xdr(
                            "COMPOUND response has "@ + decimal(word(rest) as nat) + " ops, max "@
                                + decimal(MAX_COMPOUND_OPS as nat),
                        ),
                    )
                } else {
                    match results(rest.skip(4), word(rest) as nat) {
                        Err(error) => Err(error),
                        Ok(results) => Ok(
                            ResponseView { tag, status, results, session_generation: 0 },
                        ),
                    }
                },
            },
        }
    }
}

/// Results in front of others, if those could be read.
pub open spec fn prepended(
    head: Seq<OpResponseView>,
    tail: std::result::Result<Seq<OpResponseView>, ErrorView>,
) -> std::result::Result<Seq<OpResponseView>, ErrorView> {
    match tail {
        Ok(tail) => Ok(head + tail),
        Err(error) => Err(error),
    }
}

fn decode_results(buf: &mut Bytes, count: u32) -> (decoded: Result<Vec<OpResponse>>)
    ensures
        match results(contents(*old(buf)), count as nat) {
            Ok(expected) => decoded is Ok && result_views(decoded->Ok_0@) == expected,
            Err(error) => decoded is Err && decoded->Err_0@ == error,
        },
{
    let ghost start = contents(*buf);
    let mut decoded: Vec<OpResponse> = Vec::new();
    let mut i: u32 = 0;
    proof {
        let tail = results(start, count as nat);
        assert(result_views(decoded@) =~= Seq::empty());
        if tail is Ok {
            assert(Seq::<OpResponseView>::empty() + tail->Ok_0 =~= tail->Ok_0);
        }
    }
    while i < count
        invariant
            i <= count,
            start == contents(*old(buf)),
            results(start, count as nat) == prepended(
                result_views(decoded@),
                results(contents(*buf), (count - i) as nat),
            ),
        decreases count - i,
    {
        let ghost here = contents(*buf);
        let ghost before = result_views(decoded@);
        if remaining(buf) < 8 {
            return Err(xdr_error("COMPOUND response truncated at op header"));
        }
        let opcode: u32 = get_u32(buf);
        let op_status_val: u32 = get_u32(buf);
        assert(here.skip(4).skip(4) =~= here.skip(8));
        let status = decode_nfsstat4(op_status_val)?;
        let body = duplicate(buf);
        skip_op_result(opcode, op_status_val, buf)?;
        proof {
            reveal(tail_of);
        }
        let data = prefix(&body, remaining(&body) - remaining(buf));
        let result = OpResponse { opcode, status, data };
        let ghost view = result@;
        decoded.push(result);
        i += 1;
        proof {
            assert(result_views(decoded@) =~= before.push(view));
            let tail = results(contents(*buf), (count - i) as nat);
            if tail is Ok {
                assert(before + (seq![view] + tail->Ok_0) =~= before.push(view) + tail->Ok_0);
            }
        }
    }
    assert(results(contents(*buf), 0) == Ok::<Seq<OpResponseView>, ErrorView>(Seq::empty()));
    assert(result_views(decoded@) + Seq::<OpResponseView>::empty() =~= result_views(decoded@));
    Ok(decoded)
}

impl CompoundResponse {
    /// Decode a COMPOUND4res from the RPC response payload.
    pub fn decode(buf: Bytes) -> (decoded: Result<Self>)
        ensures
            match response(contents(buf)) {
                Ok(expected) => decoded is Ok && decoded->Ok_0@ == expected,
                Err(error) => decoded is Err && decoded->Err_0@ == error,
            },
    {
        let mut buf = buf;
        let status_val: u32 = read_word(&mut buf, "COMPOUND response too short")?;
        let status = decode_nfsstat4(status_val)?;
        let tag = decode_string(&mut buf)?;
        let num_results: u32 = read_word(&mut buf, "COMPOUND response missing resarray length")?;
        if num_results as u64 > MAX_COMPOUND_OPS as u64 {
            let mut text = around_number("COMPOUND response has ", num_results as u64, " ops, max ");
            push_decimal(&mut text, MAX_COMPOUND_OPS as u64);
            return Err(NfsError::Xdr(text));
        }
        let results = decode_results(&mut buf, num_results)?;
        Ok(CompoundResponse { tag, status, results, session_generation: 0 })
    }

    /// Check overall COMPOUND status and return error if not OK.
    pub fn check_status(&self) -> (result: Result<()>)
        ensures
            if self@.status == Nfs4ErrorCode::NFS4_OK {
                result is Ok
            } else {
                result is Err && result->Err_0@ == ErrorView::Nfs4(self@.status)
            },
    {
        match self.status {
            Nfs4ErrorCode::NFS4_OK => Ok(()),
            _ => Err(NfsError::Nfs4(self.status)),
        }
    }

    /// Get the result for the nth operation (0-based), checking its status.
    pub fn op_ok(&self, index: usize) -> (op: Result<&OpResponse>)
        ensures
            if index >= self@.results.len() {
                op is Err && op->Err_0@ == ErrorView::Xdr(
                    "COMPOUND response missing op at index "@ + decimal(index as nat),
                )
            } else if self@.results[index as int].status != Nfs4ErrorCode::NFS4_OK {
                op is Err && op->Err_0@ == ErrorView::Nfs4(self@.results[index as int].status)
            } else {
                op is Ok && op->Ok_0@ == self@.results[index as int]
            },
    {
        if index >= self.results.len() {
            return Err(
                NfsError::Xdr(with_number("COMPOUND response missing op at index ", index as u64)),
            );
        }
        assert(self@.results[index as int] == self.results@[index as int]@);
        match self.results[index].status {
            Nfs4ErrorCode::NFS4_OK => Ok(&self.results[index]),
            status => Err(NfsError::Nfs4(status)),
        }
    }
}

/// A result as a server writes it: the operation, its status and its data.
pub type WrittenOp = (u32, u32, Seq<u8>);

/// Results as a server writes them.
pub open spec fn written(ops: Seq<WrittenOp>) -> Seq<u8>
    decreases ops.len(),
{
    if ops.len() == 0 {
        Seq::empty()
    } else {
        be32(ops[0].0) + be32(ops[0].1) + ops[0].2 + written(ops.drop_first())
    }
}

/// Whether the data of a result is all that the result takes, whatever follows it.
pub open spec fn whole(op: WrittenOp) -> bool {
    &&& status_word(op.1) is Ok
    &&& forall|tail: Seq<u8>| #[trigger] op_result(op.0, op.1, op.2 + tail) == Ok::<
        Seq<u8>,
        ErrorView,
    >(tail)
}

/// A result that a server wrote in front of others is read back in front of them.
proof fn lemma_first_result(op: WrittenOp, rest: Seq<u8>, count: nat)
    requires
        whole(op),
        results(rest, count) is Ok,
    ensures
        results(be32(op.0) + be32(op.1) + op.2 + rest, count + 1) == Ok::<
            Seq<OpResponseView>,
            ErrorView,
        >(
            seq![
                OpResponseView {
                    opcode: op.0,
                    status: status_word(op.1)->Ok_0,
                    data: op.2,
                },
            ] + results(rest, count)->Ok_0,
        ),
{
    let s = be32(op.0) + be32(op.1) + op.2 + rest;
    assert(s =~= be32(op.0) + (be32(op.1) + (op.2 + rest)));
    lemma_word_of_be32(op.0, be32(op.1) + (op.2 + rest));
    lemma_word_of_be32(op.1, op.2 + rest);
    assert(s.skip(4) =~= be32(op.1) + (op.2 + rest));
    assert(s.skip(8) =~= op.2 + rest);
    assert(op_result(op.0, op.1, op.2 + rest) == Ok::<Seq<u8>, ErrorView>(rest));
    assert((op.2 + rest).take((op.2 + rest).len() - rest.len()) =~= op.2);
    assert((count + 1 - 1) as nat == count);
}

/// The results that a server wrote are read back one by one, each with its own data and no
/// more.
pub proof fn law_written_results_are_read_back(ops: Seq<WrittenOp>, tail: Seq<u8>)
    requires
        forall|i: int| 0 <= i < ops.len() ==> whole(#[trigger] ops[i]),
    ensures
        results(written(ops) + tail, ops.len()) is Ok,
        ({
            let read = results(written(ops) + tail, ops.len())->Ok_0;
            &&& read.len() == ops.len()
            &&& forall|i: int|
                0 <= i < ops.len() ==> {
                    &&& (#[trigger] read[i]).opcode == ops[i].0
                    &&& status_word(ops[i].1) == Ok::<Nfs4ErrorCode, ErrorView>(read[i].status)
                    &&& read[i].data == ops[i].2
                }
        }),
    decreases ops.len(),
{
    if ops.len() > 0 {
        let op = ops[0];
        let others = ops.drop_first();
        let rest = written(others) + tail;
        assert(written(ops) + tail =~= be32(op.0) + be32(op.1) + op.2 + rest);
        assert forall|i: int| 0 <= i < others.len() implies whole(#[trigger] others[i]) by {
            assert(whole(ops[i + 1]));
        }
        law_written_results_are_read_back(others, tail);
        lemma_first_result(op, rest, others.len());
        let behind = results(rest, others.len())->Ok_0;
        let read = results(written(ops) + tail, ops.len())->Ok_0;
        assert forall|i: int| 0 <= i < ops.len() implies {
            &&& (#[trigger] read[i]).opcode == ops[i].0
            &&& status_word(ops[i].1) == Ok::<Nfs4ErrorCode, ErrorView>(read[i].status)
            &&& read[i].data == ops[i].2
        } by {
            if i > 0 {
                assert(read[i] == behind[i - 1]);
                assert(others[i - 1] == ops[i]);
            }
        }
    }
}

} // verus!
