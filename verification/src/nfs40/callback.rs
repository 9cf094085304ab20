//! The callback service of NFSv4.0: the server calls the client back to recall a
//! delegation or to ask for the attributes of a file that the client may write.

use std::collections::VecDeque;

use bytes::Bytes;
use tokio::sync::mpsc::Sender;
use vstd::prelude::*;
use vstd::slice::slice_subrange;
use vstd::slice::slice_to_vec;
use vstd::string::StringExecFns;

use crate::buffer::{as_slice, contents, copy_from_slice, duplicate};
use crate::channel::{Handed, Outbox};
use crate::error::{input_error, rpc_error, xdr_error, ErrorView, NfsError, Result};
use crate::net::{IpAddr, SocketAddr};
use crate::table::{equal_bytes, Table};
use crate::text::concat2;
use crate::xdr::{append_bytes, be32, be64, padded, padded_len, read_u32, word, words};
use crate::xdr::{xdr_u32, xdr_u64, xdr_words};

verus! {

pub const CB_PROGRAM: u32 = 0x4000_0000;

pub const MAX_CALLBACK_RECORD: usize = 65536;

pub const CALLBACK_REPLAY_CACHE_SIZE: usize = 128;

pub const MAX_CALLBACK_OPERATIONS: u32 = 64;

pub const MAX_CALLBACK_CONNECTIONS: usize = 32;

pub const OP_CB_GETATTR: u32 = 3;

pub const OP_CB_RECALL: u32 = 4;

pub const NFS4ERR_BADHANDLE: u32 = 10001;

pub const NFS4ERR_DELAY: u32 = 10008;

pub const NFS4ERR_RESOURCE: u32 = 10018;

pub const NFS4ERR_MINOR_VERS_MISMATCH: u32 = 10021;

pub const NFS4ERR_BAD_STATEID: u32 = 10025;

pub const NFS4ERR_OP_ILLEGAL: u32 = 10044;

/// The attribute bits that CB_GETATTR can ask for.
pub const FATTR4_CHANGE: u32 = 0x08;

pub const FATTR4_SIZE: u32 = 0x10;

/// What a delegation allows.
#[derive(Clone, Copy, Debug, PartialEq, Eq, Structural)]
pub enum DelegationKind {
    Read,
    Write,
}

/// A delegation as the server granted it.
#[derive(Clone, Copy, Debug)]
pub struct DelegationGrant {
    pub kind: DelegationKind,
    pub stateid: [u8; 16],
    pub recall: bool,
}

/// A delegation that the client holds.
#[derive(Clone, Copy, Debug)]
pub struct DelegationRecord {
    pub grant: DelegationGrant,
    pub generation: u64,
    /// The change number and the size of the file, where they are known.
    pub attributes: Option<(u64, u64)>,
    pub recalling: bool,
}

/// A call that was answered, and the answer.
pub struct ReplayEntry {
    pub xid: u32,
    pub call: Vec<u8>,
    pub reply: Vec<u8>,
}

/// A recall for the worker that returns delegations.
#[derive(Debug)]
pub struct RecallNotification {
    pub fh: Bytes,
    pub stateid: [u8; 16],
    pub generation: u64,
    pub flush: bool,
}

#[derive(Clone, Copy, Debug, PartialEq, Eq, Structural)]
pub struct CallbackStats {
    pub grants_received: u64,
    pub recalls_received: u64,
    pub returns_completed: u64,
    pub returns_failed: u64,
}

/// What the callback service knows.
pub struct CallbackState {
    pub delegations: Table<DelegationRecord>,
    pub generation: u64,
    /// The queue of the worker that returns delegations.
    pub recalls: Outbox<RecallNotification>,
    pub open_publications: usize,
    pub stats: CallbackStats,
    pub service_healthy: bool,
    pub worker_healthy: bool,
    pub replies: VecDeque<ReplayEntry>,
}

/// An answered call as specifications see it.
#[verifier::ext_equal]
pub struct ReplayView {
    pub xid: u32,
    pub call: Seq<u8>,
    pub reply: Seq<u8>,
}

impl View for ReplayEntry {
    type V = ReplayView;

    open spec fn view(&self) -> ReplayView {
        ReplayView { xid: self.xid, call: self.call@, reply: self.reply@ }
    }
}

/// A recall as specifications see it.
#[verifier::ext_equal]
pub struct RecallView {
    pub fh: Seq<u8>,
    pub stateid: Seq<u8>,
    pub generation: u64,
    pub flush: bool,
}

impl View for RecallNotification {
    type V = RecallView;

    open spec fn view(&self) -> RecallView {
        RecallView {
            fh: contents(self.fh),
            stateid: self.stateid@,
            generation: self.generation,
            flush: self.flush,
        }
    }
}

/// What the callback service knows and what the worker's queue was offered, as
/// specifications see it.
#[verifier::ext_equal]
pub struct CallbackView {
    pub delegations: Map<Seq<u8>, DelegationRecord>,
    pub generation: u64,
    pub open_publications: usize,
    pub stats: CallbackStats,
    pub service_healthy: bool,
    pub worker_healthy: bool,
    pub replies: Seq<ReplayView>,
    pub offers: Seq<Handed<RecallView>>,
}

impl View for CallbackState {
    type V = CallbackView;

    open spec fn view(&self) -> CallbackView {
        CallbackView {
            delegations: self.delegations@,
            generation: self.generation,
            open_publications: self.open_publications,
            stats: self.stats,
            service_healthy: self.service_healthy,
            worker_healthy: self.worker_healthy,
            replies: Seq::new(self.replies@.len(), |i: int| self.replies@[i]@),
            offers: self.recalls@,
        }
    }
}

impl CallbackState {
    /// No file has two delegations, and the replay cache is bounded.
    pub open spec fn wf(self) -> bool {
        &&& self.delegations.wf()
        &&& self.replies@.len() <= CALLBACK_REPLAY_CACHE_SIZE
    }
}

/// A value at the front of some bytes and what follows it, or why there is none.
pub type Parsed<T> = std::result::Result<(T, Seq<u8>), ErrorView>;

/// The word at the front of `s`.
pub open spec fn word_field(s: Seq<u8>, field: Seq<char>) -> Parsed<u32> {
    if s.len() < 4 {
        Err(ErrorView::Xdr(field + " truncated"@))
    } else {
        Ok((word(s), s.skip(4)))
    }
}

/// The bytes with their length in front that `s` starts with.
pub open spec fn opaque_field(s: Seq<u8>, field: Seq<char>) -> Parsed<Seq<u8>> {
    if s.len() < 4 {
        Err(ErrorView::Xdr(field + " truncated"@))
    } else {
        let len = word(s) as nat;
        let rest = s.skip(4);
        if rest.len() < len {
            Err(ErrorView::Xdr(field + " truncated"@))
        } else if rest.len() < padded(len) {
            Err(ErrorView::Xdr(field + " padding truncated"@))
        } else {
            Ok((rest.take(len as int), rest.skip(padded(len) as int)))
        }
    }
}

/// The first `len` bytes of `s`.
pub open spec fn fixed_field(s: Seq<u8>, len: nat, field: Seq<char>) -> Parsed<Seq<u8>> {
    if s.len() < len {
        Err(ErrorView::Xdr(field + " truncated"@))
    } else {
        Ok((s.take(len as int), s.skip(len as int)))
    }
}

pub fn take_word(body: &[u8], cursor: &mut usize, field: &str) -> (value: Result<u32>)
    requires
        *old(cursor) <= body@.len(),
    ensures
        *final(cursor) <= body@.len(),
        match word_field(body@.skip(*old(cursor) as int), field@) {
            Ok((expected, rest)) => value is Ok && value->Ok_0 == expected && body@.skip(
                *final(cursor) as int,
            ) == rest,
            Err(error) => value is Err && value->Err_0@ == error && *final(cursor) == *old(cursor),
        },
{
    let start: usize = *cursor;
    if body.len() - start < 4 {
        return Err(NfsError::Xdr(concat2(field, " truncated")));
    }
    *cursor = start + 4;
    assert(body@.skip(start as int).skip(4) =~= body@.skip(start + 4));
    Ok(read_u32(body, start))
}

pub fn take_opaque<'a>(body: &'a [u8], cursor: &mut usize, field: &str) -> (value: Result<&'a [u8]>)
    requires
        *old(cursor) <= body@.len(),
    ensures
        *final(cursor) <= body@.len(),
        match opaque_field(body@.skip(*old(cursor) as int), field@) {
            Ok((expected, rest)) => value is Ok && value->Ok_0@ == expected && body@.skip(
                *final(cursor) as int,
            ) == rest,
            Err(error) => value is Err && value->Err_0@ == error,
        },
{
    let ghost s = body@.skip(*cursor as int);
    let length: u32 = take_word(body, cursor, field)?;
    let start: usize = *cursor;
    assert(body@.skip(start as int) == s.skip(4));
    let available: u64 = (body.len() - start) as u64;
    if available < length as u64 {
        return Err(NfsError::Xdr(concat2(field, " truncated")));
    }
    let padded: u64 = padded_len(length);
    if available < padded {
        return Err(NfsError::Xdr(concat2(field, " padding truncated")));
    }
    let value = slice_subrange(body, start, start + length as usize);
    *cursor = start + padded as usize;
    assert(value@ =~= s.skip(4).take(length as int));
    assert(body@.skip(*cursor as int) =~= s.skip(4).skip(padded as int));
    Ok(value)
}

pub fn take_fixed<'a>(
    body: &'a [u8],
    cursor: &mut usize,
    length: usize,
    field: &str,
) -> (value: Result<&'a [u8]>)
    requires
        *old(cursor) <= body@.len(),
    ensures
        *final(cursor) <= body@.len(),
        match fixed_field(body@.skip(*old(cursor) as int), length as nat, field@) {
            Ok((expected, rest)) => value is Ok && value->Ok_0@ == expected && body@.skip(
                *final(cursor) as int,
            ) == rest,
            Err(error) => value is Err && value->Err_0@ == error && *final(cursor) == *old(cursor),
        },
{
    let start: usize = *cursor;
    if body.len() - start < length {
        return Err(NfsError::Xdr(concat2(field, " truncated")));
    }
    let value = slice_subrange(body, start, start + length);
    *cursor = start + length;
    assert(value@ =~= body@.skip(start as int).take(length as int));
    assert(body@.skip(start as int).skip(length as int) =~= body@.skip(start + length));
    Ok(value)
}

/// What a callback may change: the delegations, the number of recalls taken on, and what the
/// worker's queue was offered.
#[verifier::ext_equal]
pub struct Books {
    pub delegations: Map<Seq<u8>, DelegationRecord>,
    pub recalls: u64,
    pub offers: Seq<Handed<RecallView>>,
}

/// What a callback reads besides: the generation of the mount, and whether an OPEN is about
/// to register a delegation.
#[derive(Debug)]
pub struct Era {
    pub generation: u64,
    pub publishing: bool,
}

/// What one operation of a callback leads to.
#[verifier::ext_equal]
pub struct OpOutcome {
    pub books: Books,
    pub status: u32,
    pub result: Seq<u8>,
    pub rest: Seq<u8>,
}

/// The first word of a bitmap that is not zero.
pub open spec fn requested_attributes(s: Seq<u8>, count: nat, found: u32) -> Parsed<u32>
    decreases count,
{
    if count == 0 {
        Ok((found, s))
    } else {
        match word_field(s, "CB_GETATTR bitmap word"@) {
            Err(error) => Err(error),
            Ok((value, rest)) => requested_attributes(
                rest,
                (count - 1) as nat,
                if found == 0 {
                    value
                } else {
                    found
                },
            ),
        }
    }
}

/// The arguments of CB_GETATTR: the filehandle and the attributes asked for.
pub open spec fn getattr_args(s: Seq<u8>) -> Parsed<(Seq<u8>, u32)> {
    match opaque_field(s, "CB_GETATTR filehandle"@) {
        Err(error) => Err(error),
        Ok((fh, s)) => match word_field(s, "CB_GETATTR bitmap length"@) {
            Err(error) => Err(error),
            Ok((count, s)) => if count > 4 {
                Err(ErrorView::Xdr("CB_GETATTR bitmap exceeds bound"@))
            } else {
                match requested_attributes(s, count as nat, 0) {
                    Err(error) => Err(error),
                    Ok((requested, s)) => Ok(((fh, requested), s)),
                }
            },
        },
    }
}

/// The attributes of a file that the client may write, as far as they are asked for.
pub open spec fn attribute_values(requested: u32, change: u64, size: u64) -> Seq<u8> {
    (if requested & FATTR4_CHANGE != 0 {
        be64(change)
    } else {
        Seq::empty()
    }) + (if requested & FATTR4_SIZE != 0 {
        be64(size)
    } else {
        Seq::empty()
    })
}

/// The known attributes of a delegation that lets the client write, in this generation.
pub open spec fn current_attributes(record: Option<DelegationRecord>, generation: u64) -> Option<
    (u64, u64),
> {
    match record {
        Some(record) => if record.grant.kind == DelegationKind::Write && record.generation
            == generation {
            record.attributes
        } else {
            None
        },
        None => None,
    }
}

/// The status of CB_GETATTR: a write delegation whose attributes are not known yet asks the
/// server to wait.
pub open spec fn getattr_status(record: Option<DelegationRecord>, generation: u64) -> u32 {
    if current_attributes(record, generation) is Some {
        0
    } else {
        match record {
            Some(record) => if record.grant.kind == DelegationKind::Write && record.attributes is None {
                NFS4ERR_DELAY
            } else {
                NFS4ERR_BADHANDLE
            },
            None => NFS4ERR_BADHANDLE,
        }
    }
}

/// The result of CB_GETATTR.
pub open spec fn getattr_result(
    record: Option<DelegationRecord>,
    generation: u64,
    requested: u32,
) -> Seq<u8> {
    match current_attributes(record, generation) {
        Some((change, size)) => {
            let returned = requested & 0x18;
            let values = attribute_values(returned, change, size);
            be32(OP_CB_GETATTR) + be32(0) + be32(1) + be32(returned) + be32(values.len() as u32)
                + values
        },
        None => be32(OP_CB_GETATTR) + be32(getattr_status(record, generation)),
    }
}

/// The value of a key, if there is one.
pub open spec fn lookup<V>(map: Map<Seq<u8>, V>, key: Seq<u8>) -> Option<V> {
    if map.contains_key(key) {
        Some(map[key])
    } else {
        None
    }
}

/// The arguments of CB_RECALL: the state, whether the file is to be truncated, and the
/// filehandle.
pub open spec fn recall_args(s: Seq<u8>) -> Parsed<(Seq<u8>, bool, Seq<u8>)> {
    match fixed_field(s, 16, "CB_RECALL stateid"@) {
        Err(error) => Err(error),
        Ok((stateid, s)) => match word_field(s, "CB_RECALL truncate"@) {
            Err(error) => Err(error),
            Ok((truncate, s)) => match opaque_field(s, "CB_RECALL filehandle"@) {
                Err(error) => Err(error),
                Ok((fh, s)) => Ok(((stateid, truncate != 0, fh), s)),
            },
        },
    }
}

/// Whether a recall goes to the worker: the delegation is of this generation, has the state
/// that the server names, and is not being returned already.
pub open spec fn recall_is_new(era: Era, record: Option<DelegationRecord>, stateid: Seq<u8>) -> bool {
    match record {
        Some(record) => record.generation == era.generation && record.grant.stateid@ == stateid
            && !record.recalling,
        None => false,
    }
}

/// The status of CB_RECALL, where `taken` says whether the worker's queue took a new recall.
pub open spec fn recall_status(
    era: Era,
    record: Option<DelegationRecord>,
    stateid: Seq<u8>,
    taken: bool,
) -> u32 {
    match record {
        None => if era.publishing {
            NFS4ERR_DELAY
        } else {
            NFS4ERR_BADHANDLE
        },
        Some(record) => if record.generation != era.generation {
            NFS4ERR_BADHANDLE
        } else if record.grant.stateid@ != stateid {
            NFS4ERR_BAD_STATEID
        } else if record.recalling || taken {
            0
        } else {
            NFS4ERR_DELAY
        },
    }
}

/// The recall that the worker is offered.
pub open spec fn recall_offer(record: DelegationRecord, fh: Seq<u8>, truncate: bool) -> RecallView {
    RecallView {
        fh,
        stateid: record.grant.stateid@,
        generation: record.generation,
        flush: record.grant.kind == DelegationKind::Write && !truncate,
    }
}

/// A delegation that is being returned.
pub open spec fn recalling(record: DelegationRecord) -> DelegationRecord {
    DelegationRecord { recalling: true, ..record }
}

/// What CB_RECALL does to the books. The worker's queue is offered a new recall, and the
/// delegation is being returned once the queue has taken it.
pub open spec fn books_after_recall(
    era: Era,
    books: Books,
    fh: Seq<u8>,
    stateid: Seq<u8>,
    truncate: bool,
    taken: bool,
) -> Books {
    let record = lookup(books.delegations, fh);
    if !recall_is_new(era, record, stateid) {
        books
    } else {
        let item = recall_offer(record->Some_0, fh, truncate);
        let offered = Books { offers: books.offers.push(Handed { item, taken }), ..books };
        if taken {
            recall_taken(offered, fh)
        } else {
            offered
        }
    }
}

/// The books once the worker's queue has taken the recall of a delegation.
pub open spec fn recall_taken(books: Books, fh: Seq<u8>) -> Books {
    Books {
        delegations: books.delegations.insert(fh, recalling(books.delegations[fh])),
        recalls: books.recalls.wrapping_add(1),
        ..books
    }
}

/// What one operation leads to. `taken` is what the worker's queue answers, if it is asked.
#[verifier::opaque]
pub open spec fn op_outcome(era: Era, books: Books, s: Seq<u8>, taken: bool) -> std::result::Result<
    OpOutcome,
    ErrorView,
> {
    match word_field(s, "callback opcode"@) {
        Err(error) => Err(error),
        Ok((opcode, s)) => if opcode == OP_CB_GETATTR {
            match getattr_args(s) {
                Err(error) => Err(error),
                Ok(((fh, requested), rest)) => {
                    let record = lookup(books.delegations, fh);
                    Ok(
                        OpOutcome {
                            books,
                            status: getattr_status(record, era.generation),
                            result: getattr_result(record, era.generation, requested),
                            rest,
                        },
                    )
                },
            }
        } else if opcode == OP_CB_RECALL {
            match recall_args(s) {
                Err(error) => Err(error),
                Ok(((stateid, truncate, fh), rest)) => {
                    let record = lookup(books.delegations, fh);
                    let status = recall_status(era, record, stateid, taken);
                    Ok(
                        OpOutcome {
                            books: books_after_recall(era, books, fh, stateid, truncate, taken),
                            status,
                            result: be32(OP_CB_RECALL) + be32(status),
                            rest,
                        },
                    )
                },
            }
        } else {
            Ok(
                OpOutcome {
                    books,
                    status: NFS4ERR_OP_ILLEGAL,
                    result: be32(opcode) + be32(NFS4ERR_OP_ILLEGAL),
                    rest: s,
                },
            )
        },
    }
}

/// The end of a series of operations: the status of the last one, how many were done, their
/// results and the bytes behind them.
#[verifier::ext_equal]
pub struct SeriesEnd {
    pub status: u32,
    pub count: nat,
    pub results: Seq<u8>,
    pub rest: Seq<u8>,
}

/// What a series of operations leads to. What was done before an error stays done.
#[verifier::ext_equal]
pub struct Series {
    pub books: Books,
    pub end: std::result::Result<SeriesEnd, ErrorView>,
}

/// `count` operations, up to the first that fails. `taken[i]` is what the worker's queue
/// answers in operation `i`, if it is asked.
pub open spec fn series(era: Era, books: Books, s: Seq<u8>, count: nat, taken: Seq<bool>) -> Series
    decreases count,
{
    if count == 0 {
        Series {
            books,
            end: Ok(SeriesEnd { status: 0, count: 0, results: Seq::empty(), rest: s }),
        }
    } else {
        match op_outcome(era, books, s, taken[0]) {
            Err(error) => Series { books, end: Err(error) },
            Ok(op) => if op.status != 0 {
                Series {
                    books: op.books,
                    end: Ok(
                        SeriesEnd { status: op.status, count: 1, results: op.result, rest: op.rest },
                    ),
                }
            } else {
                continued(
                    1,
                    op.result,
                    series(era, op.books, op.rest, (count - 1) as nat, taken.skip(1)),
                )
            },
        }
    }
}

/// A series behind `count` operations that were done with the given results.
pub open spec fn continued(count: nat, results: Seq<u8>, tail: Series) -> Series {
    Series {
        books: tail.books,
        end: match tail.end {
            Ok(end) => Ok(
                SeriesEnd { count: count + end.count, results: results + end.results, ..end },
            ),
            Err(error) => Err(error),
        },
    }
}

/// CB_COMPOUND4res. The tag is echoed with the padding it came with.
pub open spec fn compound_res(
    status: u32,
    tag_len: u32,
    padded_tag: Seq<u8>,
    count: u32,
    results: Seq<u8>,
) -> Seq<u8> {
    be32(status) + be32(tag_len) + padded_tag + be32(count) + results
}

/// What a CB_COMPOUND leads to.
pub open spec fn compound_outcome(era: Era, books: Books, body: Seq<u8>, taken: Seq<bool>) -> (
    Books,
    std::result::Result<Seq<u8>, ErrorView>,
) {
    let tag_len = word(body);
    let tag_end = (4 + padded(tag_len as nat)) as int;
    let tag = body.subrange(4, tag_end);
    if body.len() < 16 {
        (books, Err(ErrorView::Xdr("CB_COMPOUND envelope truncated"@)))
    } else if body.len() < tag_end + 12 {
        (books, Err(ErrorView::Xdr("CB_COMPOUND envelope malformed"@)))
    } else {
        let count = word(body.skip(tag_end + 8));
        if word(body.skip(tag_end)) != 0 {
            (
                books,
                Ok(compound_res(NFS4ERR_MINOR_VERS_MISMATCH, tag_len, tag, 0, Seq::empty())),
            )
        } else if word(body.skip(tag_end + 4)) != 1 {
            (books, Ok(compound_res(NFS4ERR_BADHANDLE, tag_len, tag, 0, Seq::empty())))
        } else if count > MAX_CALLBACK_OPERATIONS {
            (books, Ok(compound_res(NFS4ERR_RESOURCE, tag_len, tag, 0, Seq::empty())))
        } else {
            let run = series(era, books, body.skip(tag_end + 12), count as nat, taken);
            (
                run.books,
                match run.end {
                    Err(error) => Err(error),
                    Ok(end) => if end.status == 0 && end.rest.len() != 0 {
                        Err(ErrorView::Xdr("CB_COMPOUND has trailing data"@))
                    } else {
                        Ok(compound_res(end.status, tag_len, tag, end.count as u32, end.results))
                    },
                },
            )
        }
    }
}

impl CallbackState {
    /// The part of the state that callbacks may change.
    pub open spec fn books(self) -> Books {
        Books {
            delegations: self.delegations@,
            recalls: self.stats.recalls_received,
            offers: self.recalls@,
        }
    }

    /// The part of the state that callbacks read besides.
    pub open spec fn era(self) -> Era {
        Era { generation: self.generation, publishing: self.open_publications != 0 }
    }

    /// Whether nothing but the books differs.
    pub open spec fn same_but_books(self, other: Self) -> bool {
        &&& self.generation == other.generation
        &&& self.open_publications == other.open_publications
        &&& self.stats == (CallbackStats {
            recalls_received: self.stats.recalls_received,
            ..other.stats
        })
        &&& self.service_healthy == other.service_healthy
        &&& self.worker_healthy == other.worker_healthy
        &&& self.replies == other.replies
    }

    /// Answers CB_GETATTR.
    fn getattr_op(&self, body: &[u8], cursor: &mut usize, results: &mut Vec<u8>) -> (status: Result<
        u32,
    >)
        requires
            self.wf(),
            *old(cursor) <= body@.len(),
        ensures
            *final(cursor) <= body@.len(),
            match getattr_args(body@.skip(*old(cursor) as int)) {
                Err(error) => status is Err && status->Err_0@ == error,
                Ok(((fh, requested), rest)) => {
                    let record = lookup(self.delegations@, fh);
                    &&& status is Ok
                    &&& status->Ok_0 == getattr_status(record, self.generation)
                    &&& final(results)@ == old(results)@ + getattr_result(
                        record,
                        self.generation,
                        requested,
                    )
                    &&& body@.skip(*final(cursor) as int) == rest
                },
            },
    {
        let fh = take_opaque(body, cursor, "CB_GETATTR filehandle")?;
        let bitmap_words: u32 = take_word(body, cursor, "CB_GETATTR bitmap length")?;
        if bitmap_words > 4 {
            return Err(xdr_error("CB_GETATTR bitmap exceeds bound"));
        }
        let mut requested: u32 = 0;
        let ghost start = body@.skip(*cursor as int);
        let mut i: u32 = 0;
        while i < bitmap_words
            invariant
                i <= bitmap_words,
                *cursor <= body@.len(),
                bitmap_words <= 4,
                results@ == old(results)@,
                getattr_args(body@.skip(*old(cursor) as int)) == (match requested_attributes(
                    start,
                    bitmap_words as nat,
                    0,
                ) {
                    Err(error) => Err::<((Seq<u8>, u32), Seq<u8>), ErrorView>(error),
                    Ok((requested, s)) => Ok(((fh@, requested), s)),
                }),
                requested_attributes(start, bitmap_words as nat, 0) == requested_attributes(
                    body@.skip(*cursor as int),
                    (bitmap_words - i) as nat,
                    requested,
                ),
            decreases bitmap_words - i,
        {
            let value: u32 = take_word(body, cursor, "CB_GETATTR bitmap word")?;
            if requested == 0 {
                requested = value;
            }
            i += 1;
        }
        let ghost record = lookup(self.delegations@, fh@);
        let mut status: u32 = NFS4ERR_BADHANDLE;
        if let Some(found) = self.delegations.get(fh) {
            let writes = match found.grant.kind {
                DelegationKind::Write => true,
                DelegationKind::Read => false,
            };
            if writes {
                if let Some((change, size)) = found.attributes {
                    if found.generation == self.generation {
                        let returned: u32 = requested & 0x18;
                        let mut values: Vec<u8> = Vec::new();
                        if returned & FATTR4_CHANGE != 0 {
                            xdr_u64(&mut values, change);
                        }
                        if returned & FATTR4_SIZE != 0 {
                            xdr_u64(&mut values, size);
                        }
                        assert(values@ =~= attribute_values(returned, change, size));
                        xdr_u32(results, OP_CB_GETATTR);
                        xdr_u32(results, 0);
                        xdr_u32(results, 1);
                        xdr_u32(results, returned);
                        xdr_u32(results, values.len() as u32);
                        append_bytes(results, &values);
                        assert(results@ =~= old(results)@ + getattr_result(
                            record,
                            self.generation,
                            requested,
                        ));
                        return Ok(0);
                    }
                } else {
                    status = NFS4ERR_DELAY;
                }
            }
        }
        xdr_u32(results, OP_CB_GETATTR);
        xdr_u32(results, status);
        assert(results@ =~= old(results)@ + getattr_result(record, self.generation, requested));
        Ok(status)
    }

    /// The recall to offer to the worker, if the delegation has to be returned and is not
    /// being returned yet; else the status of CB_RECALL.
    pub fn decide_recall(&self, fh: &[u8], stateid: &[u8], truncate: bool) -> (decision:
        std::result::Result<RecallNotification, u32>)
        requires
            self.wf(),
        ensures
            ({
                let record = lookup(self.delegations@, fh@);
                if recall_is_new(self.era(), record, stateid@) {
                    decision is Ok && decision->Ok_0@ == recall_offer(record->Some_0, fh@, truncate)
                } else {
                    decision is Err && decision->Err_0 == recall_status(
                        self.era(),
                        record,
                        stateid@,
                        false,
                    )
                }
            }),
    {
        match self.delegations.get(fh) {
            None => if self.open_publications != 0 {
                Err(NFS4ERR_DELAY)
            } else {
                Err(NFS4ERR_BADHANDLE)
            },
            Some(record) => if record.generation != self.generation {
                Err(NFS4ERR_BADHANDLE)
            } else if !equal_bytes(&record.grant.stateid, stateid) {
                Err(NFS4ERR_BAD_STATEID)
            } else if record.recalling {
                Err(0)
            } else {
                let writes = match record.grant.kind {
                    DelegationKind::Write => true,
                    DelegationKind::Read => false,
                };
                Ok(
                    RecallNotification {
                        fh: copy_from_slice(fh),
                        stateid: record.grant.stateid,
                        generation: record.generation,
                        flush: writes && !truncate,
                    },
                )
            },
        }
    }

    /// Enters what the worker's queue answered to a new recall.
    pub fn enter_recall(&mut self, fh: &[u8], taken: bool) -> (status: u32)
        requires
            old(self).wf(),
            old(self).delegations@.contains_key(fh@),
        ensures
            final(self).wf(),
            final(self).same_but_books(*old(self)),
            status == (if taken {
                0
            } else {
                NFS4ERR_DELAY
            }),
            final(self).books() == (if taken {
                recall_taken(old(self).books(), fh@)
            } else {
                old(self).books()
            }),
    {
        if !taken {
            return NFS4ERR_DELAY;
        }
        if let Some(i) = self.delegations.find(fh) {
            let record = self.delegations.entries[i].value;
            self.delegations.set_at(
                i,
                DelegationRecord {
                    grant: record.grant,
                    generation: record.generation,
                    attributes: record.attributes,
                    recalling: true,
                },
            );
        }
        self.stats.recalls_received = self.stats.recalls_received.wrapping_add(1);
        0
    }

    /// Answers CB_RECALL. The second result is what the worker's queue said, if it was asked.
    fn recall_op(&mut self, body: &[u8], cursor: &mut usize, results: &mut Vec<u8>) -> (status:
        Result<(u32, bool)>)
        requires
            old(self).wf(),
            *old(cursor) <= body@.len(),
        ensures
            final(self).wf(),
            final(self).same_but_books(*old(self)),
            *final(cursor) <= body@.len(),
            match recall_args(body@.skip(*old(cursor) as int)) {
                Err(error) => status is Err && status->Err_0@ == error && final(self).books()
                    == old(self).books(),
                Ok(((stateid, truncate, fh), rest)) => {
                    let record = lookup(old(self).delegations@, fh);
                    &&& status is Ok
                    &&& status->Ok_0.0 == recall_status(
                        old(self).era(),
                        record,
                        stateid,
                        status->Ok_0.1,
                    )
                    &&& final(self).books() == books_after_recall(
                        old(self).era(),
                        old(self).books(),
                        fh,
                        stateid,
                        truncate,
                        status->Ok_0.1,
                    )
                    &&& final(results)@ == old(results)@ + be32(OP_CB_RECALL) + be32(
                        status->Ok_0.0,
                    )
                    &&& body@.skip(*final(cursor) as int) == rest
                },
            },
    {
        let stateid = take_fixed(body, cursor, 16, "CB_RECALL stateid")?;
        let truncate: u32 = take_word(body, cursor, "CB_RECALL truncate")?;
        let fh = take_opaque(body, cursor, "CB_RECALL filehandle")?;
        let (status, taken): (u32, bool) = match self.decide_recall(fh, stateid, truncate != 0) {
            Err(status) => (status, false),
            Ok(recall) => {
                let taken = self.recalls.offer(recall);
                (self.enter_recall(fh, taken), taken)
            },
        };
        xdr_u32(results, OP_CB_RECALL);
        xdr_u32(results, status);
        Ok((status, taken))
    }

    /// Does one operation of a CB_COMPOUND. The second result is what the worker's queue
    /// said, if it was asked.
    fn callback_op(&mut self, body: &[u8], cursor: &mut usize, results: &mut Vec<u8>) -> (status:
        Result<(u32, bool)>)
        requires
            old(self).wf(),
            *old(cursor) <= body@.len(),
        ensures
            final(self).wf(),
            final(self).same_but_books(*old(self)),
            *final(cursor) <= body@.len(),
            forall|taken: bool|
                status is Err ==> #[trigger] op_outcome(
                    old(self).era(),
                    old(self).books(),
                    body@.skip(*old(cursor) as int),
                    taken,
                ) == Err::<OpOutcome, ErrorView>(status->Err_0@),
            status is Err ==> final(self).books() == old(self).books(),
            status is Ok ==> ({
                let expected = op_outcome(
                    old(self).era(),
                    old(self).books(),
                    body@.skip(*old(cursor) as int),
                    status->Ok_0.1,
                );
                &&& expected is Ok
                &&& status->Ok_0.0 == expected->Ok_0.status
                &&& final(self).books() == expected->Ok_0.books
                &&& final(results)@ == old(results)@ + expected->Ok_0.result
                &&& body@.skip(*final(cursor) as int) == expected->Ok_0.rest
            }),
    {
        reveal(op_outcome);
        let opcode: u32 = take_word(body, cursor, "callback opcode")?;
        if opcode == OP_CB_GETATTR {
            let status: u32 = self.getattr_op(body, cursor, results)?;
            Ok((status, false))
        } else if opcode == OP_CB_RECALL {
            let (status, taken): (u32, bool) = self.recall_op(body, cursor, results)?;
            assert(results@ =~= old(results)@ + (be32(OP_CB_RECALL) + be32(status)));
            Ok((status, taken))
        } else {
            xdr_u32(results, opcode);
            xdr_u32(results, NFS4ERR_OP_ILLEGAL);
            assert(results@ =~= old(results)@ + (be32(opcode) + be32(NFS4ERR_OP_ILLEGAL)));
            Ok((NFS4ERR_OP_ILLEGAL, false))
        }
    }
}


/// Reading results one behind the other.
proof fn lemma_continued(count: nat, results: Seq<u8>, result: Seq<u8>, tail: Series)
    ensures
        continued(count, results, continued(1, result, tail)) == continued(
            count + 1,
            results + result,
            tail,
        ),
{
    if tail.end is Ok {
        assert(results + (result + tail.end->Ok_0.results) =~= (results + result)
            + tail.end->Ok_0.results);
    }
}

/// CB_COMPOUND4res.
pub fn compound_result(
    status: u32,
    padded_tag: &[u8],
    tag_len: u32,
    result_count: u32,
    results: &[u8],
) -> (reply: Vec<u8>)
    ensures
        reply@ == compound_res(status, tag_len, padded_tag@, result_count, results@),
{
    let mut reply: Vec<u8> = Vec::new();
    xdr_u32(&mut reply, status);
    xdr_u32(&mut reply, tag_len);
    append_bytes(&mut reply, padded_tag);
    xdr_u32(&mut reply, result_count);
    append_bytes(&mut reply, results);
    assert(reply@ =~= compound_res(status, tag_len, padded_tag@, result_count, results@));
    reply
}

/// What a series of operations came to: the status of the last one, how many were done and
/// their results.
pub struct SeriesReply {
    pub status: u32,
    pub count: u32,
    pub results: Vec<u8>,
}

impl CallbackState {
    /// Does up to `count` operations, stopping behind the first that fails.
    fn run_series(&mut self, body: &[u8], cursor: &mut usize, count: u32) -> (reply: Result<
        SeriesReply,
    >)
        requires
            old(self).wf(),
            *old(cursor) <= body@.len(),
        ensures
            final(self).wf(),
            final(self).same_but_books(*old(self)),
            *final(cursor) <= body@.len(),
            exists|taken: Seq<bool>|
                series_matches(
                    #[trigger] series(
                        old(self).era(),
                        old(self).books(),
                        body@.skip(*old(cursor) as int),
                        count as nat,
                        taken,
                    ),
                    final(self).books(),
                    reply,
                    body@.skip(*final(cursor) as int),
                ),
    {
        let ghost era = self.era();
        let ghost books = self.books();
        let ghost start = body@.skip(*cursor as int);
        let ghost mut taken: Seq<bool> = Seq::empty();
        let mut results: Vec<u8> = Vec::new();
        let mut i: u32 = 0;
        proof {
            assert forall|t: Seq<bool>| #[trigger] series(era, books, start, count as nat, taken + t)
                == continued(
                0,
                results@,
                series(self.era(), self.books(), body@.skip(*cursor as int), count as nat, t),
            ) by {
                assert(taken + t =~= t);
                let tail = series(era, books, start, count as nat, t);
                if tail.end is Ok {
                    assert(results@ + tail.end->Ok_0.results =~= tail.end->Ok_0.results);
                }
            }
        }
        while i < count
            invariant
                i <= count,
                self.wf(),
                self.same_but_books(*old(self)),
                self.era() == era,
                era == old(self).era(),
                books == old(self).books(),
                start == body@.skip(*old(cursor) as int),
                *cursor <= body@.len(),
                forall|t: Seq<bool>| #[trigger]
                    series(era, books, start, count as nat, taken + t) == continued(
                        i as nat,
                        results@,
                        series(
                            era,
                            self.books(),
                            body@.skip(*cursor as int),
                            (count - i) as nat,
                            t,
                        ),
                    ),
            decreases count - i,
        {
            let ghost here = body@.skip(*cursor as int);
            let ghost before = self.books();
            let ghost done = results@;
            match self.callback_op(body, cursor, &mut results) {
                Err(error) => {
                    proof {
                        let all = taken + seq![false];
                        assert(op_outcome(era, before, here, seq![false][0]) == Err::<
                            OpOutcome,
                            ErrorView,
                        >(error@));
                        assert(series(era, books, start, count as nat, all).end == Err::<
                            SeriesEnd,
                            ErrorView,
                        >(error@));
                    }
                    return Err(error);
                },
                Ok((status, asked)) => {
                    let ghost expected = op_outcome(era, before, here, asked)->Ok_0;
                    if status != 0 {
                        proof {
                            let all = taken + seq![asked];
                            assert(seq![asked][0] == asked);
                            assert(series(era, books, start, count as nat, all).end == Ok::<
                                SeriesEnd,
                                ErrorView,
                            >(
                                SeriesEnd {
                                    status,
                                    count: (i + 1) as nat,
                                    results: results@,
                                    rest: body@.skip(*cursor as int),
                                },
                            ));
                        }
                        return Ok(SeriesReply { status, count: i + 1, results });
                    }
                    i += 1;
                    proof {
                        let prior = taken;
                        taken = taken.push(asked);
                        assert forall|t: Seq<bool>| #[trigger]
                            series(era, books, start, count as nat, taken + t) == continued(
                                i as nat,
                                results@,
                                series(
                                    era,
                                    self.books(),
                                    body@.skip(*cursor as int),
                                    (count - i) as nat,
                                    t,
                                ),
                            ) by {
                            let ahead = seq![asked] + t;
                            assert(taken + t =~= prior + ahead);
                            assert(ahead[0] == asked);
                            assert(ahead.skip(1) =~= t);
                            lemma_continued(
                                (i - 1) as nat,
                                done,
                                expected.result,
                                series(era, expected.books, expected.rest, (count - i) as nat, t),
                            );
                        }
                    }
                },
            }
        }
        proof {
            let all = taken + Seq::<bool>::empty();
            let end = series(era, books, start, count as nat, all).end;
            assert(results@ + Seq::<u8>::empty() =~= results@);
            assert(end->Ok_0.results =~= results@);
        }
        Ok(SeriesReply { status: 0, count, results })
    }

    /// Does a CB_COMPOUND and returns its result. Which recalls the worker's queue takes is
    /// up to the queue.
    pub fn compound_reply(&mut self, body: &[u8]) -> (reply: Result<Vec<u8>>)
        requires
            old(self).wf(),
        ensures
            final(self).wf(),
            final(self).same_but_books(*old(self)),
            exists|taken: Seq<bool>|
                compound_matches(
                    #[trigger] compound_outcome(old(self).era(), old(self).books(), body@, taken),
                    final(self).books(),
                    reply,
                ),
    {
        let ghost none: Seq<bool> = Seq::empty();
        let ghost plain = compound_outcome(self.era(), self.books(), body@, none);
        if body.len() < 16 {
            return Err(xdr_error("CB_COMPOUND envelope truncated"));
        }
        assert(body@.skip(0) =~= body@);
        let tag_len: u32 = read_u32(body, 0);
        let padded_tag: u64 = padded_len(tag_len);
        if (body.len() as u64) < 4 + padded_tag + 12 {
            return Err(xdr_error("CB_COMPOUND envelope malformed"));
        }
        let minor_offset: usize = 4 + padded_tag as usize;
        let tag = slice_subrange(body, 4, minor_offset);
        let minor: u32 = read_u32(body, minor_offset);
        let callback_ident: u32 = read_u32(body, minor_offset + 4);
        let operation_count: u32 = read_u32(body, minor_offset + 8);
        let nothing: Vec<u8> = Vec::new();
        assert(nothing@ =~= Seq::empty());
        if minor != 0 {
            return Ok(compound_result(NFS4ERR_MINOR_VERS_MISMATCH, tag, tag_len, 0, &nothing));
        }
        if callback_ident != 1 {
            return Ok(compound_result(NFS4ERR_BADHANDLE, tag, tag_len, 0, &nothing));
        }
        if operation_count > MAX_CALLBACK_OPERATIONS {
            return Ok(compound_result(NFS4ERR_RESOURCE, tag, tag_len, 0, &nothing));
        }
        let mut cursor: usize = minor_offset + 12;
        let ghost start = body@.skip(cursor as int);
        let ended = self.run_series(body, &mut cursor, operation_count);
        let ghost taken = choose|taken: Seq<bool>|
            series_matches(
                #[trigger] series(
                    old(self).era(),
                    old(self).books(),
                    start,
                    operation_count as nat,
                    taken,
                ),
                self.books(),
                ended,
                body@.skip(cursor as int),
            );
        let ghost outcome = compound_outcome(old(self).era(), old(self).books(), body@, taken);
        match ended {
            Err(error) => Err(error),
            Ok(end) => {
                if end.status == 0 && cursor != body.len() {
                    return Err(xdr_error("CB_COMPOUND has trailing data"));
                }
                Ok(compound_result(end.status, tag, tag_len, end.count, &end.results))
            },
        }
    }
}

/// Whether a series came to what is expected.
pub open spec fn series_matches(
    run: Series,
    books: Books,
    reply: Result<SeriesReply>,
    rest: Seq<u8>,
) -> bool {
    &&& run.books == books
    &&& match run.end {
        Err(error) => reply is Err && reply->Err_0@ == error,
        Ok(end) => reply is Ok && reply->Ok_0.status == end.status && reply->Ok_0.count
            == end.count && reply->Ok_0.results@ == end.results && rest == end.rest,
    }
}

/// Whether a CB_COMPOUND came to what is expected.
pub open spec fn compound_matches(
    outcome: (Books, std::result::Result<Seq<u8>, ErrorView>),
    books: Books,
    reply: Result<Vec<u8>>,
) -> bool {
    &&& outcome.0 == books
    &&& match outcome.1 {
        Ok(bytes) => reply is Ok && reply->Ok_0@ == bytes,
        Err(error) => reply is Err && reply->Err_0@ == error,
    }
}


/// A reply that is made of words alone.
pub fn rpc_reply(values: &[u32]) -> (reply: Vec<u8>)
    ensures
        reply@ == words(values@),
{
    let mut reply: Vec<u8> = Vec::new();
    xdr_words(&mut reply, values);
    assert(reply@ =~= words(values@));
    reply
}

/// An accepted call: MSG_ACCEPTED with an AUTH_NONE verifier.
pub open spec fn accepted(xid: u32, result: Seq<u32>) -> Seq<u8> {
    words(seq![xid, 1u32, 0u32, 0u32, 0u32] + result)
}

pub fn accepted_reply(xid: u32, result: &[u32]) -> (reply: Vec<u8>)
    ensures
        reply@ == accepted(xid, result@),
{
    let mut values: Vec<u32> = vec![xid, 1, 0, 0, 0];
    values.extend_from_slice(result);
    assert(values@ =~= seq![xid, 1u32, 0u32, 0u32, 0u32] + result@);
    rpc_reply(&values)
}

/// An accepted call that succeeded, with its result.
pub open spec fn accepted_with(xid: u32, body: Seq<u8>) -> Seq<u8> {
    words(seq![xid, 1u32, 0u32, 0u32, 0u32, 0u32]) + body
}

pub fn accepted_body(xid: u32, body: &[u8]) -> (reply: Vec<u8>)
    ensures
        reply@ == accepted_with(xid, body@),
{
    let values: [u32; 6] = [xid, 1, 0, 0, 0, 0];
    assert(values@ =~= seq![xid, 1u32, 0u32, 0u32, 0u32, 0u32]);
    let mut reply = rpc_reply(&values);
    append_bytes(&mut reply, body);
    reply
}

/// The credential and the verifier of a call, and what follows them.
#[derive(Debug)]
pub struct RpcAuthEnvelope<'a> {
    pub credential_flavor: u32,
    pub credential: &'a [u8],
    pub verifier_flavor: u32,
    pub verifier: &'a [u8],
    pub body: &'a [u8],
}

/// An envelope as specifications see it.
#[verifier::ext_equal]
pub struct EnvelopeView {
    pub credential_flavor: u32,
    pub credential: Seq<u8>,
    pub verifier_flavor: u32,
    pub verifier: Seq<u8>,
    pub body: Seq<u8>,
}

impl<'a> View for RpcAuthEnvelope<'a> {
    type V = EnvelopeView;

    open spec fn view(&self) -> EnvelopeView {
        EnvelopeView {
            credential_flavor: self.credential_flavor,
            credential: self.credential@,
            verifier_flavor: self.verifier_flavor,
            verifier: self.verifier@,
            body: self.body@,
        }
    }
}

/// The largest body of an opaque_auth.
pub const MAX_AUTH_BYTES: u32 = 400;

/// The flavor and the body of the opaque_auth that `s` starts with, and what follows it.
pub open spec fn opaque_auth(s: Seq<u8>) -> Option<(u32, Seq<u8>, Seq<u8>)> {
    let len = word(s.skip(4));
    if s.len() < 8 || len > MAX_AUTH_BYTES || s.len() < 8 + padded(len as nat) {
        None
    } else {
        Some((word(s), s.subrange(8, 8 + len), s.skip(8 + padded(len as nat) as int)))
    }
}

/// The credential and the verifier that `s` starts with.
pub open spec fn rpc_auth(s: Seq<u8>) -> Option<EnvelopeView> {
    match opaque_auth(s) {
        None => None,
        Some((credential_flavor, credential, rest)) => match opaque_auth(rest) {
            None => None,
            Some((verifier_flavor, verifier, body)) => Some(
                EnvelopeView { credential_flavor, credential, verifier_flavor, verifier, body },
            ),
        },
    }
}

fn take_auth<'a>(encoded: &'a [u8]) -> (auth: Option<(u32, &'a [u8], &'a [u8])>)
    ensures
        match auth {
            None => opaque_auth(encoded@) is None,
            Some((flavor, value, rest)) => opaque_auth(encoded@) == Some((flavor, value@, rest@)),
        },
{
    if encoded.len() < 8 {
        return None;
    }
    assert(encoded@.skip(0) =~= encoded@);
    let flavor: u32 = read_u32(encoded, 0);
    let length: u32 = read_u32(encoded, 4);
    if length > MAX_AUTH_BYTES {
        return None;
    }
    let end: usize = 8 + padded_len(length) as usize;
    if encoded.len() < end {
        return None;
    }
    let value = slice_subrange(encoded, 8, 8 + length as usize);
    let rest = slice_subrange(encoded, end, encoded.len());
    assert(rest@ =~= encoded@.skip(end as int));
    Some((flavor, value, rest))
}

pub fn decode_rpc_auth<'a>(encoded: &'a [u8]) -> (envelope: Option<RpcAuthEnvelope<'a>>)
    ensures
        match envelope {
            None => rpc_auth(encoded@) is None,
            Some(envelope) => rpc_auth(encoded@) == Some(envelope@),
        },
{
    match take_auth(encoded) {
        None => None,
        Some((credential_flavor, credential, rest)) => match take_auth(rest) {
            None => None,
            Some((verifier_flavor, verifier, body)) => Some(
                RpcAuthEnvelope { credential_flavor, credential, verifier_flavor, verifier, body },
            ),
        },
    }
}

/// Whether a verifier is one that callbacks may carry.
pub open spec fn verifier_ok(flavor: u32, verifier: Seq<u8>) -> bool {
    (flavor == 0 && verifier.len() == 0) || (flavor == 1 && verifier.len() == 4)
}

/// RFC 5531 recommends AUTH_NONE here. Some servers send an AUTH_SYS verifier that holds
/// one XDR word; only that bounded form is accepted besides.
pub fn valid_callback_verifier(flavor: u32, verifier: &[u8]) -> (valid: bool)
    ensures
        valid == verifier_ok(flavor, verifier@),
{
    (flavor == 0 && verifier.len() == 0) || (flavor == 1 && verifier.len() == 4)
}

/// The longest machine name and the most groups of an AUTH_SYS credential.
pub const MAX_MACHINE_NAME: u32 = 255;

pub const MAX_GROUPS: u32 = 16;

/// Whether the part of an AUTH_SYS credential behind its stamp is well formed: the machine
/// name, the user, the group, and the other groups, with nothing behind them.
pub open spec fn auth_sys_ok(s: Seq<u8>) -> bool {
    let name_end = (4 + padded(word(s) as nat)) as int;
    let groups = word(s.skip(name_end + 8));
    &&& word(s) <= MAX_MACHINE_NAME
    &&& s.len() >= name_end + 12
    &&& groups <= MAX_GROUPS
    &&& s.len() == name_end + 12 + groups * 4
}

/// Whether a credential is one that callbacks may carry.
pub open spec fn credential_ok(flavor: u32, credential: Seq<u8>) -> bool {
    if flavor == 0 {
        credential.len() == 0
    } else {
        flavor == 1 && credential.len() >= 20 && credential.len() % 4 == 0 && auth_sys_ok(
            credential.skip(4),
        )
    }
}

pub fn valid_callback_credential(flavor: u32, credential: &[u8]) -> (valid: bool)
    ensures
        valid == credential_ok(flavor, credential@),
{
    if flavor == 0 {
        return credential.len() == 0;
    }
    if flavor != 1 || credential.len() < 20 || credential.len() % 4 != 0 {
        return false;
    }
    let ghost s = credential@.skip(4);
    let machine_length: u32 = read_u32(credential, 4);
    if machine_length > MAX_MACHINE_NAME {
        return false;
    }
    // The stamp is opaque to the receiver.
    let tail: usize = 8 + padded_len(machine_length) as usize;
    if credential.len() < tail + 12 {
        return false;
    }
    let group_count: u32 = read_u32(credential, tail + 8);
    assert(credential@.skip(tail + 8) =~= s.skip(tail - 4 + 8));
    group_count <= MAX_GROUPS && credential.len() == tail + 12 + group_count as usize * 4
}

/// Whether a CB_COMPOUND held one operation, a recall, and it succeeded.
pub open spec fn single_recall_done(body: Seq<u8>, reply: Seq<u8>) -> bool {
    let tag_end = (4 + padded(word(body) as nat)) as int;
    &&& body.len() >= 4
    &&& body.len() >= tag_end + 16
    &&& word(body.skip(tag_end + 8)) == 1
    &&& word(body.skip(tag_end + 12)) == OP_CB_RECALL
    &&& reply.len() >= 4
    &&& word(reply) == 0
}

pub fn successful_single_recall(body: &[u8], reply: &[u8]) -> (done: bool)
    ensures
        done == single_recall_done(body@, reply@),
{
    if body.len() < 4 || reply.len() < 4 {
        return false;
    }
    assert(body@.skip(0) =~= body@);
    assert(reply@.skip(0) =~= reply@);
    let tag_end: u64 = 4 + padded_len(read_u32(body, 0));
    if (body.len() as u64) < tag_end + 16 {
        return false;
    }
    let minor_offset: usize = tag_end as usize;
    read_u32(body, minor_offset + 8) == 1 && read_u32(body, minor_offset + 12) == OP_CB_RECALL
        && read_u32(reply, 0) == 0
}

/// The answer to a call that was answered before.
pub open spec fn replayed(replies: Seq<ReplayView>, xid: u32, call: Seq<u8>) -> Option<Seq<u8>>
    decreases replies.len(),
{
    if replies.len() == 0 {
        None
    } else if replies[0].xid == xid && replies[0].call == call {
        Some(replies[0].reply)
    } else {
        replayed(replies.skip(1), xid, call)
    }
}

/// The replay cache with one more answer; a full cache forgets its oldest.
pub open spec fn remembered(replies: Seq<ReplayView>, entry: ReplayView) -> Seq<ReplayView> {
    if replies.len() == CALLBACK_REPLAY_CACHE_SIZE {
        replies.skip(1).push(entry)
    } else {
        replies.push(entry)
    }
}

/// What a call leads to: the books, the replay cache and the answer.
#[verifier::ext_equal]
pub struct CallOutcome {
    pub books: Books,
    pub replies: Seq<ReplayView>,
    pub reply: std::result::Result<Seq<u8>, ErrorView>,
}

/// What a CB_COMPOUND call leads to. A recall that succeeded on its own is remembered, so
/// that a repeated call gets the same answer.
pub open spec fn compound_call_outcome(
    era: Era,
    books: Books,
    replies: Seq<ReplayView>,
    call: Seq<u8>,
    body: Seq<u8>,
    taken: Seq<bool>,
) -> CallOutcome {
    let xid = word(call);
    let (books, compound) = compound_outcome(era, books, body, taken);
    match compound {
        Err(_) => CallOutcome { books, replies, reply: Ok(accepted(xid, seq![4u32])) },
        Ok(compound) => {
            let reply = accepted_with(xid, compound);
            CallOutcome {
                books,
                replies: if single_recall_done(body, compound) {
                    remembered(replies, ReplayView { xid, call, reply })
                } else {
                    replies
                },
                reply: Ok(reply),
            }
        },
    }
}

/// The answer to a call that has no effect: all but a well-formed CB_COMPOUND that was not
/// answered before.
pub open spec fn plain_answer(replies: Seq<ReplayView>, call: Seq<u8>) -> Option<
    std::result::Result<Seq<u8>, ErrorView>,
> {
    let xid = word(call);
    let procedure = word(call.skip(20));
    if call.len() < 24 || call.len() % 4 != 0 {
        Some(Err(ErrorView::Xdr("NFSv4.0 callback RPC call has an invalid length"@)))
    } else if replayed(replies, xid, call) is Some {
        Some(Ok(replayed(replies, xid, call)->Some_0))
    } else if word(call.skip(4)) != 0 {
        Some(Err(ErrorView::Rpc("NFSv4.0 callback RPC message is not a CALL"@)))
    } else if word(call.skip(8)) != 2 {
        Some(Ok(words(seq![xid, 1u32, 1u32, 0u32, 2u32, 2u32])))
    } else if word(call.skip(12)) != CB_PROGRAM {
        Some(Ok(accepted(xid, seq![1u32])))
    } else if word(call.skip(16)) != 1 {
        Some(Ok(accepted(xid, seq![2u32, 1u32, 1u32])))
    } else if procedure > 1 {
        Some(Ok(accepted(xid, seq![3u32])))
    } else {
        match rpc_auth(call.skip(24)) {
            None => Some(Ok(words(seq![xid, 1u32, 1u32, 1u32, 1u32]))),
            Some(auth) => if !credential_ok(auth.credential_flavor, auth.credential) || !verifier_ok(
                auth.verifier_flavor,
                auth.verifier,
            ) {
                Some(Ok(words(seq![xid, 1u32, 1u32, 1u32, 1u32])))
            } else if procedure == 0 {
                Some(Ok(accepted(xid, seq![if auth.body.len() == 0 { 0u32 } else { 4u32 }])))
            } else {
                None
            },
        }
    }
}

/// What a call leads to.
pub open spec fn call_outcome(
    era: Era,
    books: Books,
    replies: Seq<ReplayView>,
    call: Seq<u8>,
    taken: Seq<bool>,
) -> CallOutcome {
    match plain_answer(replies, call) {
        Some(reply) => CallOutcome { books, replies, reply },
        None => compound_call_outcome(
            era,
            books,
            replies,
            call,
            rpc_auth(call.skip(24))->Some_0.body,
            taken,
        ),
    }
}

impl CallbackState {
    /// The answer to a call that was answered before.
    fn cached_reply(&self, xid: u32, call: &[u8]) -> (reply: Option<Vec<u8>>)
        ensures
            match reply {
                Some(reply) => replayed(self@.replies, xid, call@) == Some(reply@),
                None => replayed(self@.replies, xid, call@) is None,
            },
    {
        let mut i: usize = 0;
        assert(self@.replies.skip(0) =~= self@.replies);
        while i < self.replies.len()
            invariant
                i <= self.replies@.len(),
                self@.replies.len() == self.replies@.len(),
                replayed(self@.replies, xid, call@) == replayed(
                    self@.replies.skip(i as int),
                    xid,
                    call@,
                ),
            decreases self.replies.len() - i,
        {
            let record = &self.replies[i];
            assert(self@.replies.skip(i as int)[0] == record@);
            assert(self@.replies.skip(i as int).skip(1) =~= self@.replies.skip(i + 1));
            if record.xid == xid && equal_bytes(&record.call, call) {
                return Some(slice_to_vec(&record.reply));
            }
            i += 1;
        }
        None
    }

    /// Remembers the answer to a call.
    fn cache_reply(&mut self, xid: u32, call: &[u8], reply: &[u8])
        requires
            old(self).wf(),
        ensures
            final(self).wf(),
            final(self)@ == (CallbackView {
                replies: remembered(
                    old(self)@.replies,
                    ReplayView { xid, call: call@, reply: reply@ },
                ),
                ..old(self)@
            }),
    {
        if self.replies.len() == CALLBACK_REPLAY_CACHE_SIZE {
            let _ = self.replies.pop_front();
        }
        self.replies.push_back(
            ReplayEntry { xid, call: slice_to_vec(call), reply: slice_to_vec(reply) },
        );
        assert(self@.replies =~= remembered(
            old(self)@.replies,
            ReplayView { xid, call: call@, reply: reply@ },
        ));
    }

    /// Answers a call of the server.
    pub fn handle_rpc_call(&mut self, call: &[u8]) -> (reply: Result<Vec<u8>>)
        requires
            old(self).wf(),
        ensures
            final(self).wf(),
            exists|taken: Seq<bool>|
                call_matches(
                    #[trigger] call_outcome(
                        old(self).era(),
                        old(self).books(),
                        old(self)@.replies,
                        call@,
                        taken,
                    ),
                    old(self)@,
                    final(self)@,
                    reply,
                ),
    {
        let ghost none: Seq<bool> = Seq::empty();
        let ghost before = *self;
        let ghost plain = call_outcome(self.era(), self.books(), self@.replies, call@, none);
        if call.len() < 24 || call.len() % 4 != 0 {
            return Err(xdr_error("NFSv4.0 callback RPC call has an invalid length"));
        }
        assert(call@.skip(0) =~= call@);
        let xid: u32 = read_u32(call, 0);
        if let Some(reply) = self.cached_reply(xid, call) {
            return Ok(reply);
        }
        if read_u32(call, 4) != 0 {
            return Err(rpc_error("NFSv4.0 callback RPC message is not a CALL"));
        }
        if read_u32(call, 8) != 2 {
            let values: [u32; 6] = [xid, 1, 1, 0, 2, 2];
            assert(values@ =~= seq![xid, 1u32, 1u32, 0u32, 2u32, 2u32]);
            return Ok(rpc_reply(&values));
        }
        if read_u32(call, 12) != CB_PROGRAM {
            let result: [u32; 1] = [1];
            assert(result@ =~= seq![1u32]);
            return Ok(accepted_reply(xid, &result));
        }
        if read_u32(call, 16) != 1 {
            let result: [u32; 3] = [2, 1, 1];
            assert(result@ =~= seq![2u32, 1u32, 1u32]);
            return Ok(accepted_reply(xid, &result));
        }
        let procedure: u32 = read_u32(call, 20);
        if procedure > 1 {
            let result: [u32; 1] = [3];
            assert(result@ =~= seq![3u32]);
            return Ok(accepted_reply(xid, &result));
        }
        let denied: [u32; 5] = [xid, 1, 1, 1, 1];
        assert(denied@ =~= seq![xid, 1u32, 1u32, 1u32, 1u32]);
        let garbage: [u32; 1] = [4];
        assert(garbage@ =~= seq![4u32]);
        let encoded = slice_subrange(call, 24, call.len());
        assert(encoded@ =~= call@.skip(24));
        let envelope = match decode_rpc_auth(encoded) {
            Some(envelope) => envelope,
            None => {
                return Ok(rpc_reply(&denied));
            },
        };
        if !valid_callback_credential(envelope.credential_flavor, envelope.credential)
            || !valid_callback_verifier(envelope.verifier_flavor, envelope.verifier) {
            return Ok(rpc_reply(&denied));
        }
        if procedure == 0 {
            let done: [u32; 1] = [0];
            assert(done@ =~= seq![0u32]);
            return Ok(
                if envelope.body.len() == 0 {
                    accepted_reply(xid, &done)
                } else {
                    accepted_reply(xid, &garbage)
                },
            );
        }
        assert(plain_answer(self@.replies, call@) is None);
        let body = envelope.body;
        let result = self.compound_reply(body);
        let ghost taken = choose|taken: Seq<bool>|
            compound_matches(
                #[trigger] compound_outcome(before.era(), before.books(), body@, taken),
                self.books(),
                result,
            );
        let ghost outcome = call_outcome(
            before.era(),
            before.books(),
            before@.replies,
            call@,
            taken,
        );
        assert(self@.replies =~= before@.replies);
        match result {
            Err(_) => Ok(accepted_reply(xid, &garbage)),
            Ok(compound) => {
                let reply = accepted_body(xid, &compound);
                if successful_single_recall(body, &compound) {
                    self.cache_reply(xid, call, &reply);
                }
                Ok(reply)
            },
        }
    }
}

/// Whether a call came to what is expected, and changed nothing else.
pub open spec fn call_matches(
    outcome: CallOutcome,
    before: CallbackView,
    after: CallbackView,
    reply: Result<Vec<u8>>,
) -> bool {
    &&& after == (CallbackView {
        delegations: outcome.books.delegations,
        stats: CallbackStats { recalls_received: outcome.books.recalls, ..before.stats },
        replies: outcome.replies,
        offers: outcome.books.offers,
        ..before
    })
    &&& match outcome.reply {
        Ok(bytes) => reply is Ok && reply->Ok_0@ == bytes,
        Err(error) => reply is Err && reply->Err_0@ == error,
    }
}


/// A state that holds no delegations.
pub open spec fn fresh() -> CallbackView {
    CallbackView {
        delegations: Map::empty(),
        generation: 0,
        open_publications: 0,
        stats: CallbackStats {
            grants_received: 0,
            recalls_received: 0,
            returns_completed: 0,
            returns_failed: 0,
        },
        service_healthy: true,
        worker_healthy: true,
        replies: Seq::empty(),
        offers: Seq::empty(),
    }
}

/// The recall that comes with a grant.
pub open spec fn grant_offer(fh: Seq<u8>, grant: DelegationGrant, generation: u64) -> RecallView {
    RecallView {
        fh,
        stateid: grant.stateid@,
        generation,
        flush: grant.kind == DelegationKind::Write,
    }
}

/// The state once a grant is entered. `taken` is what the worker's queue answers to a grant
/// that comes with its own recall; a refusal leaves the recall to be asked for again.
pub open spec fn registered(
    state: CallbackView,
    fh: Seq<u8>,
    grant: DelegationGrant,
    generation: u64,
    attributes: Option<(u64, u64)>,
    taken: bool,
) -> CallbackView {
    CallbackView {
        delegations: state.delegations.insert(
            fh,
            DelegationRecord { grant, generation, attributes, recalling: grant.recall && taken },
        ),
        generation,
        stats: CallbackStats {
            grants_received: state.stats.grants_received.wrapping_add(1),
            recalls_received: if grant.recall && taken {
                state.stats.recalls_received.wrapping_add(1)
            } else {
                state.stats.recalls_received
            },
            ..state.stats
        },
        worker_healthy: state.worker_healthy && (grant.recall ==> taken),
        offers: if grant.recall {
            state.offers.push(Handed { item: grant_offer(fh, grant, generation), taken })
        } else {
            state.offers
        },
        ..state
    }
}

/// Whether a recall still speaks of a delegation that is held.
pub open spec fn recall_is_current(state: CallbackView, recall: RecallView) -> bool {
    &&& state.generation == recall.generation
    &&& state.delegations.contains_key(recall.fh)
    &&& state.delegations[recall.fh].generation == recall.generation
    &&& state.delegations[recall.fh].grant.stateid@ == recall.stateid
}

/// The delegations once a recall has been worked off.
pub open spec fn recall_finished(
    delegations: Map<Seq<u8>, DelegationRecord>,
    fh: Seq<u8>,
    stateid: Seq<u8>,
    generation: u64,
    returned: bool,
) -> Map<Seq<u8>, DelegationRecord> {
    match lookup(delegations, fh) {
        Some(record) => if record.generation == generation && record.grant.stateid@ == stateid {
            if returned {
                delegations.remove(fh)
            } else {
                delegations.insert(fh, DelegationRecord { recalling: false, ..record })
            }
        } else {
            delegations
        },
        None => delegations,
    }
}

impl CallbackState {
    pub fn new(recall_tx: Sender<RecallNotification>) -> (state: Self)
        ensures
            state.wf(),
            state@ == fresh(),
    {
        let state = CallbackState {
            delegations: Table::new(),
            generation: 0,
            recalls: Outbox::new(recall_tx),
            open_publications: 0,
            stats: CallbackStats {
                grants_received: 0,
                recalls_received: 0,
                returns_completed: 0,
                returns_failed: 0,
            },
            service_healthy: true,
            worker_healthy: true,
            replies: VecDeque::new(),
        };
        assert(state@.replies =~= Seq::empty());
        state
    }

    pub fn stats(&self) -> (stats: CallbackStats)
        ensures
            stats == self@.stats,
    {
        self.stats
    }

    pub fn healthy(&self) -> (healthy: bool)
        ensures
            healthy == (self@.service_healthy && self@.worker_healthy),
    {
        self.service_healthy && self.worker_healthy
    }

    /// Forgets the attributes of a file that the client may write. Returns whether the client
    /// may write it.
    pub fn mark_attributes_unknown(&mut self, fh: &[u8]) -> (writes: bool)
        requires
            old(self).wf(),
        ensures
            final(self).wf(),
            writes == (lookup(old(self)@.delegations, fh@) matches Some(record) && record.grant.kind
                == DelegationKind::Write),
            final(self)@ == (CallbackView {
                delegations: if writes {
                    old(self)@.delegations.insert(
                        fh@,
                        DelegationRecord { attributes: None, ..old(self)@.delegations[fh@] },
                    )
                } else {
                    old(self)@.delegations
                },
                ..old(self)@
            }),
    {
        match self.delegations.find(fh) {
            None => false,
            Some(i) => {
                let record = self.delegations.entries[i].value;
                match record.grant.kind {
                    DelegationKind::Read => false,
                    DelegationKind::Write => {
                        self.delegations.set_at(
                            i,
                            DelegationRecord {
                                grant: record.grant,
                                generation: record.generation,
                                attributes: None,
                                recalling: record.recalling,
                            },
                        );
                        assert(self@.replies =~= old(self)@.replies);
                        true
                    },
                }
            },
        }
    }

    /// Enters the attributes of a file that the client may write.
    pub fn publish_attributes(&mut self, fh: &[u8], change: u64, size: u64)
        requires
            old(self).wf(),
        ensures
            final(self).wf(),
            final(self)@ == (CallbackView {
                delegations: match lookup(old(self)@.delegations, fh@) {
                    Some(record) => if record.grant.kind == DelegationKind::Write {
                        old(self)@.delegations.insert(
                            fh@,
                            DelegationRecord { attributes: Some((change, size)), ..record },
                        )
                    } else {
                        old(self)@.delegations
                    },
                    None => old(self)@.delegations,
                },
                ..old(self)@
            }),
    {
        if let Some(i) = self.delegations.find(fh) {
            let record = self.delegations.entries[i].value;
            if let DelegationKind::Write = record.grant.kind {
                self.delegations.set_at(
                    i,
                    DelegationRecord {
                        grant: record.grant,
                        generation: record.generation,
                        attributes: Some((change, size)),
                        recalling: record.recalling,
                    },
                );
                assert(self@.replies =~= old(self)@.replies);
            }
        }
    }

    /// Marks every delegation as being returned and gives the recalls for those that were
    /// not being returned yet.
    pub fn return_all_delegations(&mut self) -> (recalls: Vec<RecallNotification>)
        requires
            old(self).wf(),
        ensures
            final(self).wf(),
            final(self)@ == (CallbackView {
                delegations: old(self)@.delegations.map_values(
                    |record: DelegationRecord| recalling(record),
                ),
                ..old(self)@
            }),
            forall|i: int|
                0 <= i < recalls@.len() ==> ({
                    let fh = #[trigger] recalls@[i]@.fh;
                    &&& old(self)@.delegations.contains_key(fh)
                    &&& !old(self)@.delegations[fh].recalling
                    &&& recalls@[i]@ == recall_offer(old(self)@.delegations[fh], fh, false)
                }),
            forall|i: int, j: int|
                0 <= i < j < recalls@.len() ==> #[trigger] recalls@[i]@.fh != #[trigger] recalls@[j]@.fh,
            forall|fh: Seq<u8>| #[trigger]
                old(self)@.delegations.contains_key(fh) && !old(self)@.delegations[fh].recalling
                    ==> exists|i: int| 0 <= i < recalls@.len() && #[trigger] recalls@[i]@.fh == fh,
    {
        let ghost before = self.delegations;
        let mut recalls: Vec<RecallNotification> = Vec::new();
        let ghost mut source: Seq<int> = Seq::empty();
        let mut k: usize = 0;
        while k < self.delegations.entries.len()
            invariant
                before.wf(),
                self.delegations.wf(),
                k <= self.delegations.entries@.len(),
                self.delegations.entries@.len() == before.entries@.len(),
                self.generation == old(self).generation,
                self.recalls == old(self).recalls,
                self.open_publications == old(self).open_publications,
                self.stats == old(self).stats,
                self.service_healthy == old(self).service_healthy,
                self.worker_healthy == old(self).worker_healthy,
                self.replies == old(self).replies,
                forall|j: int|
                    0 <= j < before.entries@.len() ==> #[trigger] self.delegations.key_at(j)
                        == before.key_at(j),
                forall|j: int|
                    0 <= j < k ==> #[trigger] self.delegations.entries@[j].value == recalling(
                        before.entries@[j].value,
                    ),
                forall|j: int|
                    k <= j < before.entries@.len() ==> #[trigger] self.delegations.entries@[j]
                        == before.entries@[j],
                source.len() == recalls@.len(),
                forall|i: int|
                    0 <= i < source.len() ==> 0 <= #[trigger] source[i] < k
                        && !before.entries@[source[i]].value.recalling && recalls@[i]@
                        == recall_offer(
                        before.entries@[source[i]].value,
                        before.key_at(source[i]),
                        false,
                    ),
                forall|i: int, j: int|
                    0 <= i < j < source.len() ==> #[trigger] source[i] < #[trigger] source[j],
                forall|j: int|
                    0 <= j < k && !(#[trigger] before.entries@[j]).value.recalling
                        ==> exists|i: int| 0 <= i < source.len() && #[trigger] source[i] == j,
            decreases self.delegations.entries.len() - k,
        {
            let ghost earlier = self.delegations;
            let ghost prior = source;
            let record = self.delegations.entries[k].value;
            assert(record == before.entries@[k as int].value);
            if !record.recalling {
                let writes = match record.grant.kind {
                    DelegationKind::Write => true,
                    DelegationKind::Read => false,
                };
                recalls.push(
                    RecallNotification {
                        fh: duplicate(&self.delegations.entries[k].key),
                        stateid: record.grant.stateid,
                        generation: record.generation,
                        flush: writes,
                    },
                );
                proof {
                    assert(self.delegations.key_at(k as int) == before.key_at(k as int));
                    source = source.push(k as int);
                }
                self.delegations.entries[k].value = DelegationRecord {
                    grant: record.grant,
                    generation: record.generation,
                    attributes: record.attributes,
                    recalling: true,
                };
                proof {
                    assert forall|j: int| 0 <= j < before.entries@.len() implies
                        #[trigger] self.delegations.key_at(j) == before.key_at(j) by {
                        assert(earlier.key_at(j) == before.key_at(j));
                    }
                    assert forall|a: int, b: int|
                        0 <= a < b < self.delegations.entries@.len() implies
                        #[trigger] self.delegations.key_at(a) != #[trigger] self.delegations.key_at(b) by {
                        assert(before.key_at(a) != before.key_at(b));
                    }
                    assert(source[prior.len() as int] == k);
                    assert forall|j: int|
                        0 <= j < k + 1 && !(#[trigger] before.entries@[j]).value.recalling implies
                        exists|i: int| 0 <= i < source.len() && #[trigger] source[i] == j by {
                        if j < k {
                            let i = choose|i: int| 0 <= i < prior.len() && #[trigger] prior[i] == j;
                            assert(source[i] == j);
                        }
                    }
                }
            }
            k += 1;
        }
        proof {
            let after = self.delegations;
            assert forall|fh: Seq<u8>| after.has(fh) == before.has(fh) by {
                if after.has(fh) {
                    assert(before.key_at(after.slot(fh)) == fh);
                }
                if before.has(fh) {
                    assert(after.key_at(before.slot(fh)) == fh);
                }
            }
            let expected = before@.map_values(|record: DelegationRecord| recalling(record));
            assert forall|fh: Seq<u8>| expected.contains_key(fh) implies #[trigger] after@[fh]
                == expected[fh] by {
                let j = before.slot(fh);
                assert(before.key_at(j) == fh);
                before.lemma_entry(j);
                assert(after.key_at(j) == fh);
                after.lemma_entry(j);
                assert(after.entries@[j].value == recalling(before.entries@[j].value));
            }
            assert(after@ =~= expected);
            assert(self@.replies =~= old(self)@.replies);
            assert forall|i: int| 0 <= i < recalls@.len() implies ({
                let fh = #[trigger] recalls@[i]@.fh;
                &&& before@.contains_key(fh)
                &&& !before@[fh].recalling
                &&& recalls@[i]@ == recall_offer(before@[fh], fh, false)
            }) by {
                before.lemma_entry(source[i]);
            }
            assert forall|i: int, j: int| 0 <= i < j < recalls@.len() implies #[trigger] recalls@[i]@.fh
                != #[trigger] recalls@[j]@.fh by {
                assert(source[i] < source[j]);
                assert(before.key_at(source[i]) != before.key_at(source[j]));
            }
            assert forall|fh: Seq<u8>| #[trigger]
                before@.contains_key(fh) && !before@[fh].recalling implies exists|i: int|
                0 <= i < recalls@.len() && #[trigger] recalls@[i]@.fh == fh by {
                let j = before.slot(fh);
                assert(before.key_at(j) == fh);
                before.lemma_entry(j);
                assert(!before.entries@[j].value.recalling);
                let i = choose|i: int| 0 <= i < source.len() && #[trigger] source[i] == j;
                assert(recalls@[i]@.fh == fh);
            }
        }
        recalls
    }

    /// Announces that an OPEN is about to register a delegation.
    pub fn begin_open_publication(&mut self)
        ensures
            final(self)@ == (CallbackView {
                open_publications: old(self)@.open_publications.wrapping_add(1),
                ..old(self)@
            }),
            old(self).wf() ==> final(self).wf(),
    {
        self.open_publications = self.open_publications.wrapping_add(1);
        assert(self@.replies =~= old(self)@.replies);
    }

    /// Ends what [`CallbackState::begin_open_publication`] began.
    pub fn end_open_publication(&mut self)
        ensures
            final(self)@ == (CallbackView {
                open_publications: old(self)@.open_publications.wrapping_sub(1),
                ..old(self)@
            }),
            old(self).wf() ==> final(self).wf(),
    {
        self.open_publications = self.open_publications.wrapping_sub(1);
        assert(self@.replies =~= old(self)@.replies);
    }

    /// Enters a grant and gives the recall to offer to the worker, if the grant came with
    /// one. Until the worker's queue has answered, the recall counts as refused but the
    /// worker as healthy.
    pub fn enter_grant(
        &mut self,
        fh: Bytes,
        grant: DelegationGrant,
        generation: u64,
        attributes: Option<(u64, u64)>,
    ) -> (recall: Option<RecallNotification>)
        requires
            old(self).wf(),
        ensures
            final(self).wf(),
            final(self)@ == (CallbackView {
                worker_healthy: old(self)@.worker_healthy,
                offers: old(self)@.offers,
                ..registered(old(self)@, contents(fh), grant, generation, attributes, false)
            }),
            recall is Some <==> grant.recall,
            recall is Some ==> recall->Some_0@ == grant_offer(contents(fh), grant, generation),
    {
        self.stats.grants_received = self.stats.grants_received.wrapping_add(1);
        self.generation = generation;
        let recall = if grant.recall {
            let writes = match grant.kind {
                DelegationKind::Write => true,
                DelegationKind::Read => false,
            };
            Some(
                RecallNotification {
                    fh: duplicate(&fh),
                    stateid: grant.stateid,
                    generation,
                    flush: writes,
                },
            )
        } else {
            None
        };
        self.delegations.put(
            fh,
            DelegationRecord { grant, generation, attributes, recalling: false },
        );
        assert(self@.replies =~= old(self)@.replies);
        recall
    }

    /// Enters what the worker's queue answered to the recall that came with a grant.
    pub fn enter_grant_recall(&mut self, fh: &[u8], taken: bool)
        requires
            old(self).wf(),
            old(self)@.delegations.contains_key(fh@),
        ensures
            final(self).wf(),
            final(self)@ == (if taken {
                CallbackView {
                    delegations: old(self)@.delegations.insert(
                        fh@,
                        recalling(old(self)@.delegations[fh@]),
                    ),
                    stats: CallbackStats {
                        recalls_received: old(self)@.stats.recalls_received.wrapping_add(1),
                        ..old(self)@.stats
                    },
                    ..old(self)@
                }
            } else {
                CallbackView { worker_healthy: false, ..old(self)@ }
            }),
    {
        if taken {
            let _ = self.enter_recall(fh, true);
        } else {
            self.worker_healthy = false;
        }
        assert(self@.replies =~= old(self)@.replies);
    }

    /// Enters a grant, and offers its recall to the worker if it came with one.
    pub fn register_delegation(
        &mut self,
        fh: Bytes,
        grant: DelegationGrant,
        generation: u64,
        attributes: Option<(u64, u64)>,
    )
        requires
            old(self).wf(),
        ensures
            final(self).wf(),
            exists|taken: bool|
                final(self)@ == #[trigger] registered(
                    old(self)@,
                    contents(fh),
                    grant,
                    generation,
                    attributes,
                    taken,
                ),
    {
        let key = duplicate(&fh);
        let ghost fh_bytes = contents(fh);
        match self.enter_grant(fh, grant, generation, attributes) {
            None => {
                assert(self@ =~= registered(
                    old(self)@,
                    fh_bytes,
                    grant,
                    generation,
                    attributes,
                    false,
                ));
            },
            Some(recall) => {
                let taken = self.recalls.offer(recall);
                self.enter_grant_recall(as_slice(&key), taken);
                proof {
                    let expected = registered(
                        old(self)@,
                        fh_bytes,
                        grant,
                        generation,
                        attributes,
                        taken,
                    );
                    assert(self@.delegations =~= expected.delegations);
                    assert(self@ =~= expected);
                }
            },
        }
    }

    /// Forgets every delegation and moves on to another generation.
    pub fn invalidate_delegations(&mut self, generation: u64)
        requires
            old(self).wf(),
        ensures
            final(self).wf(),
            final(self)@ == (CallbackView {
                delegations: Map::empty(),
                generation,
                ..old(self)@
            }),
    {
        self.generation = generation;
        self.delegations.clear();
        assert(self@.replies =~= old(self)@.replies);
    }

    /// Whether a recall still speaks of a delegation that is held.
    pub fn is_current(&self, recall: &RecallNotification) -> (current: bool)
        requires
            self.wf(),
        ensures
            current == recall_is_current(self@, recall@),
    {
        if self.generation != recall.generation {
            return false;
        }
        match self.delegations.get(as_slice(&recall.fh)) {
            Some(record) => record.generation == recall.generation && equal_bytes(
                &record.grant.stateid,
                &recall.stateid,
            ),
            None => false,
        }
    }

    /// Forgets a delegation that was returned, or lets a recall that failed be asked for
    /// again.
    pub fn finish_recall(&mut self, fh: &[u8], stateid: &[u8; 16], generation: u64, returned: bool)
        requires
            old(self).wf(),
        ensures
            final(self).wf(),
            final(self)@ == (CallbackView {
                delegations: recall_finished(
                    old(self)@.delegations,
                    fh@,
                    stateid@,
                    generation,
                    returned,
                ),
                ..old(self)@
            }),
    {
        if let Some(i) = self.delegations.find(fh) {
            let record = self.delegations.entries[i].value;
            if record.generation == generation && equal_bytes(&record.grant.stateid, stateid) {
                if returned {
                    let _ = self.delegations.remove(fh);
                } else {
                    self.delegations.set_at(
                        i,
                        DelegationRecord {
                            grant: record.grant,
                            generation: record.generation,
                            attributes: record.attributes,
                            recalling: false,
                        },
                    );
                }
            }
        }
        assert(self@.replies =~= old(self)@.replies);
    }

    /// Enters how the return of a delegation went.
    pub fn settle(&mut self, recall: &RecallNotification, returned: bool)
        requires
            old(self).wf(),
        ensures
            final(self).wf(),
            final(self)@ == (CallbackView {
                delegations: recall_finished(
                    old(self)@.delegations,
                    recall@.fh,
                    recall@.stateid,
                    recall@.generation,
                    returned,
                ),
                stats: if returned {
                    CallbackStats {
                        returns_completed: old(self)@.stats.returns_completed.wrapping_add(1),
                        ..old(self)@.stats
                    }
                } else {
                    CallbackStats {
                        returns_failed: old(self)@.stats.returns_failed.wrapping_add(1),
                        ..old(self)@.stats
                    }
                },
                worker_healthy: returned,
                ..old(self)@
            }),
    {
        if returned {
            self.stats.returns_completed = self.stats.returns_completed.wrapping_add(1);
        } else {
            self.stats.returns_failed = self.stats.returns_failed.wrapping_add(1);
        }
        self.worker_healthy = returned;
        assert(self@.replies =~= old(self)@.replies);
        self.finish_recall(as_slice(&recall.fh), &recall.stateid, recall.generation, returned);
    }
}

/// Callbacks need an IPv4 server: the address of one, or the reason for refusing it.
pub fn callback_server(server: SocketAddr) -> (ip: Result<[u8; 4]>)
    ensures
        match server.ip {
            IpAddr::V4(octets) => ip is Ok && ip->Ok_0 == octets,
            IpAddr::V6(_) => ip is Err && ip->Err_0@ == ErrorView::InvalidInput(
                "NFSv4.0 delegation callbacks currently require an IPv4 endpoint"@,
            ),
        },
{
    match server.ip {
        IpAddr::V4(octets) => Ok(octets),
        IpAddr::V6(_) => Err(
            input_error("NFSv4.0 delegation callbacks currently require an IPv4 endpoint"),
        ),
    }
}

/// Whether a caller is the server that was mounted.
pub fn accepts_peer(server: [u8; 4], peer: IpAddr) -> (accepted: bool)
    ensures
        accepted == (peer is V4 && peer->V4_0@ == server@),
{
    match peer {
        IpAddr::V4(octets) => equal_bytes(&octets, &server),
        IpAddr::V6(_) => false,
    }
}

/// A record that comes in fragments. Each fragment has a marker in front: its length, and
/// in the highest bit whether it is the last.
#[derive(Debug)]
pub struct RecordReader {
    pub record: Vec<u8>,
}

/// The length that a fragment marker gives.
pub open spec fn fragment_length(marker: u32) -> u32 {
    marker % 0x8000_0000
}

/// Whether a fragment marker ends the record.
pub open spec fn is_last_fragment(marker: u32) -> bool {
    marker >= 0x8000_0000
}

impl RecordReader {
    pub fn new() -> (reader: Self)
        ensures
            reader.record@ == Seq::<u8>::empty(),
    {
        RecordReader { record: Vec::new() }
    }

    /// Whether a connection that ends here ends between two records.
    pub fn at_boundary(&self) -> (boundary: bool)
        ensures
            boundary == (self.record@.len() == 0),
    {
        self.record.len() == 0
    }

    /// The number of bytes to read behind a marker. A record that would grow beyond the
    /// bound is refused before any of the fragment is read.
    pub fn fragment(&self, marker: u32) -> (length: Result<usize>)
        ensures
            if self.record@.len() + fragment_length(marker) > MAX_CALLBACK_RECORD {
                length is Err && length->Err_0@ == ErrorView::Xdr(
                    "NFSv4.0 callback RPC record exceeds the configured bound"@,
                )
            } else {
                length is Ok && length->Ok_0 == fragment_length(marker)
            },
    {
        let length: u32 = marker % 0x8000_0000;
        if self.record.len() > MAX_CALLBACK_RECORD || length as u64 > (MAX_CALLBACK_RECORD
            - self.record.len()) as u64 {
            return Err(xdr_error("NFSv4.0 callback RPC record exceeds the configured bound"));
        }
        Ok(length as usize)
    }

    /// Adds the bytes of a fragment and returns the record if it was the last.
    pub fn accept(&mut self, marker: u32, fragment: &[u8]) -> (record: Option<Vec<u8>>)
        ensures
            if is_last_fragment(marker) {
                &&& record is Some
                &&& record->Some_0@ == old(self).record@ + fragment@
                &&& final(self).record@ == Seq::<u8>::empty()
            } else {
                &&& record is None
                &&& final(self).record@ == old(self).record@ + fragment@
            },
    {
        append_bytes(&mut self.record, fragment);
        if marker >= 0x8000_0000 {
            let mut record: Vec<u8> = Vec::new();
            record.append(&mut self.record);
            assert(record@ =~= old(self).record@ + fragment@);
            Some(record)
        } else {
            None
        }
    }
}

/// The marker of a record that is sent in one fragment.
pub fn record_marker(record: &[u8]) -> (marker: u32)
    ensures
        marker == 0x8000_0000u32 | (record@.len() as u32),
{
    0x8000_0000 | record.len() as u32
}

/// A call that was answered from the replay cache changes nothing.
pub proof fn law_replay_changes_nothing(
    era: Era,
    books: Books,
    replies: Seq<ReplayView>,
    call: Seq<u8>,
    taken: Seq<bool>,
)
    requires
        call.len() >= 24,
        call.len() % 4 == 0,
        replayed(replies, word(call), call) is Some,
    ensures
        call_outcome(era, books, replies, call, taken) == (CallOutcome {
            books,
            replies,
            reply: Ok(replayed(replies, word(call), call)->Some_0),
        }),
{
}

/// What was remembered last is found, unless the call was remembered before.
proof fn lemma_found_behind(replies: Seq<ReplayView>, entry: ReplayView)
    requires
        replayed(replies, entry.xid, entry.call) is None,
    ensures
        replayed(replies.push(entry), entry.xid, entry.call) == Some(entry.reply),
    decreases replies.len(),
{
    if replies.len() > 0 {
        assert(replies.push(entry).skip(1) =~= replies.skip(1).push(entry));
        lemma_found_behind(replies.skip(1), entry);
    } else {
        assert(replies.push(entry).skip(1) =~= Seq::empty());
    }
}

/// A recall whose answer was lost is answered again, byte for byte, and nothing is done a
/// second time, whatever happened to the delegation in between.
pub proof fn law_repeated_recall_is_answered_alike(
    era: Era,
    books: Books,
    replies: Seq<ReplayView>,
    call: Seq<u8>,
    taken: Seq<bool>,
    later_era: Era,
    later_books: Books,
    later_taken: Seq<bool>,
)
    requires
        replies.len() <= CALLBACK_REPLAY_CACHE_SIZE,
        plain_answer(replies, call) is None,
        ({
            let body = rpc_auth(call.skip(24))->Some_0.body;
            let compound = compound_outcome(era, books, body, taken).1;
            compound is Ok && single_recall_done(body, compound->Ok_0)
        }),
    ensures
        ({
            let first = call_outcome(era, books, replies, call, taken);
            let second = call_outcome(later_era, later_books, first.replies, call, later_taken);
            &&& second.reply == first.reply
            &&& second.books == later_books
            &&& second.replies == first.replies
        }),
{
    let xid = word(call);
    let first = call_outcome(era, books, replies, call, taken);
    let entry = ReplayView { xid, call, reply: first.reply->Ok_0 };
    let kept = if replies.len() == CALLBACK_REPLAY_CACHE_SIZE {
        replies.skip(1)
    } else {
        replies
    };
    assert(replayed(replies, xid, call) is None);
    assert(replayed(kept, xid, call) is None);
    lemma_found_behind(kept, entry);
    assert(first.replies == kept.push(entry));
}

/// A recall that the worker has taken is acknowledged again without being offered again.
pub proof fn law_duplicate_recall_is_queued_once(
    era: Era,
    books: Books,
    fh: Seq<u8>,
    stateid: Seq<u8>,
    truncate: bool,
    again: bool,
)
    requires
        recall_is_new(era, lookup(books.delegations, fh), stateid),
    ensures
        ({
            let after = books_after_recall(era, books, fh, stateid, truncate, true);
            let record = lookup(after.delegations, fh);
            &&& after.offers.len() == books.offers.len() + 1
            &&& books_after_recall(era, after, fh, stateid, truncate, again) == after
            &&& recall_status(era, record, stateid, again) == 0
        }),
{
}

/// A recall that the worker's queue refuses is put off and is offered again when it is asked
/// for again.
pub proof fn law_refused_recall_is_not_consumed(
    era: Era,
    books: Books,
    fh: Seq<u8>,
    stateid: Seq<u8>,
    truncate: bool,
)
    requires
        recall_is_new(era, lookup(books.delegations, fh), stateid),
    ensures
        ({
            let after = books_after_recall(era, books, fh, stateid, truncate, false);
            &&& after.delegations == books.delegations
            &&& after.recalls == books.recalls
            &&& recall_is_new(era, lookup(after.delegations, fh), stateid)
            &&& recall_status(era, lookup(books.delegations, fh), stateid, false) == NFS4ERR_DELAY
        }),
{
}

/// A CB_COMPOUND of another minor version, for another callback identifier, or with too
/// many operations has no effect.
pub proof fn law_rejected_envelope_has_no_effect(
    era: Era,
    books: Books,
    body: Seq<u8>,
    taken: Seq<bool>,
)
    requires
        body.len() >= 16,
        body.len() >= 4 + padded(word(body) as nat) + 12,
        ({
            let tag_end = (4 + padded(word(body) as nat)) as int;
            ||| word(body.skip(tag_end)) != 0
            ||| word(body.skip(tag_end + 4)) != 1
            ||| word(body.skip(tag_end + 8)) > MAX_CALLBACK_OPERATIONS
        }),
    ensures
        compound_outcome(era, books, body, taken).0 == books,
{
}

/// Once the delegations are invalidated, a recall of an old one is refused.
pub proof fn law_invalidated_delegations_are_unknown(
    state: CallbackView,
    generation: u64,
    fh: Seq<u8>,
    stateid: Seq<u8>,
    taken: bool,
)
    requires
        state.open_publications == 0,
    ensures
        ({
            let after = CallbackView { delegations: Map::empty(), generation, ..state };
            let era = Era { generation, publishing: after.open_publications != 0 };
            &&& recall_status(era, lookup(after.delegations, fh), stateid, taken)
                == NFS4ERR_BADHANDLE
            &&& !recall_is_new(era, lookup(after.delegations, fh), stateid)
        }),
{
}

/// A recall that was worked off is no longer current.
pub proof fn law_returned_delegation_is_gone(state: CallbackView, recall: RecallView)
    requires
        recall_is_current(state, recall),
    ensures
        !recall_is_current(
            CallbackView {
                delegations: recall_finished(
                    state.delegations,
                    recall.fh,
                    recall.stateid,
                    recall.generation,
                    true,
                ),
                ..state
            },
            recall,
        ),
{
}

} // verus!
