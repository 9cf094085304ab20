//! NFSv4.0 COMPOUND requests and replies.

use bytes::Bytes;
use vstd::prelude::*;
use vstd::string::StringExecFns;
use vstd::utf8::{decode_utf8, encode_utf8, valid_utf8};

use crate::buffer::{
    advance, as_slice, contents, duplicate, get_u32, get_u64, remaining, take_array,
};
use crate::error::{xdr_error, ErrorView, NfsError, Result};
use crate::nfs4::compound::{
    check_status, expect_op, response_ops, take_opaque, take_u32, xdr_opaque, OP_GETFH, OP_LOOKUP,
    OP_PUTFH,
};
use crate::nfs4::compound::CompoundBuilder as CommonCompoundBuilder;
use crate::nfs4::compound::{
    bytes_read_as, chain, fixed_item, ok_status, op_head, opaque_item, raw_compound_args, read_as,
    reply_head, word_item, Decoded, Parsed, RawRequest,
};
use crate::nfs40::callback::CB_PROGRAM;
use crate::nfs41::{NFS4_COMPOUND_PROC, NFS4_PROGRAM, NFS4_VERSION};
use crate::rpc::{call_header, Auth};
use crate::text::{concat2, decimal, push_decimal, utf8_error_text, utf8_text, with_number};
use crate::xdr::{append_bytes, be32, be64, bitmap4, bool32, hyper, opaque, word};
use crate::xdr::{xdr_bitmap, xdr_bool, xdr_string, xdr_u32, xdr_u64};

verus! {

pub const OP_ACCESS: u32 = 3;

pub const OP_CLOSE: u32 = 4;

pub const OP_COMMIT: u32 = 5;

pub const OP_CREATE: u32 = 6;

pub const OP_DELEGRETURN: u32 = 8;

pub const OP_GETATTR: u32 = 9;

pub const OP_LINK: u32 = 11;

pub const OP_LOCK: u32 = 12;

pub const OP_LOCKT: u32 = 13;

pub const OP_LOCKU: u32 = 14;

pub const OP_OPEN: u32 = 18;

pub const OP_OPEN_CONFIRM: u32 = 20;

pub const OP_READ: u32 = 25;

pub const OP_READDIR: u32 = 26;

pub const OP_READLINK: u32 = 27;

pub const OP_REMOVE: u32 = 28;

pub const OP_RENAME: u32 = 29;

pub const OP_RENEW: u32 = 30;

pub const OP_SAVEFH: u32 = 32;

pub const OP_SETATTR: u32 = 34;

pub const OP_SETCLIENTID: u32 = 35;

pub const OP_SETCLIENTID_CONFIRM: u32 = 36;

pub const OP_WRITE: u32 = 38;

pub const OP_RELEASE_LOCKOWNER: u32 = 39;

pub const NFS4ERR_DENIED: u32 = 10010;

pub const MAX_LOCK_OWNER_LEN: usize = 1024;

pub const OPEN4_RESULT_CONFIRM: u32 = 0x0000_0002;

#[derive(Clone, Copy, Debug, PartialEq, Eq)]
pub struct OpenResult {
    pub stateid: [u8; 16],
    pub confirm_required: bool,
}

#[derive(Clone, Copy, Debug)]
pub struct OpenArgs<'a> {
    pub seqid: u32,
    pub share_access: u32,
    pub client_id: u64,
    pub owner: &'a [u8],
    pub filename: &'a str,
    pub create: bool,
}

#[derive(Debug)]
pub struct NewLockArgs<'a> {
    pub lock_type: u32,
    pub reclaim: bool,
    pub offset: u64,
    pub length: u64,
    pub open_seqid: u32,
    pub open_stateid: &'a [u8; 16],
    pub lock_seqid: u32,
    pub client_id: u64,
    pub owner: &'a [u8],
}

#[derive(Debug)]
pub struct OpenReclaimArgs<'a> {
    pub seqid: u32,
    pub share_access: u32,
    pub client_id: u64,
    pub owner: &'a [u8],
}

#[derive(Debug)]
pub struct SetClientIdArgs<'a> {
    pub verifier: [u8; 8],
    pub owner: &'a [u8],
    pub callback: CallbackAddress<'a>,
}

/// Where the server calls the client back.
#[derive(Clone, Copy, Debug)]
pub struct CallbackAddress<'a> {
    pub program: u32,
    pub netid: &'a str,
    pub addr: &'a str,
    pub ident: u32,
}

impl<'a> CallbackAddress<'a> {
    /// No callbacks.
    pub fn disabled() -> (address: Self)
        ensures
            address.program == 0,
            address.netid@ == ""@,
            address.addr@ == ""@,
            address.ident == 0,
    {
        CallbackAddress { program: 0, netid: "", addr: "", ident: 0 }
    }

    pub fn tcp(addr: &'a str, ident: u32) -> (address: Self)
        ensures
            address.program == CB_PROGRAM,
            address.netid@ == "tcp"@,
            address.addr@ == addr@,
            address.ident == ident,
    {
        CallbackAddress { program: CB_PROGRAM, netid: "tcp", addr, ident }
    }
}

/// SETCLIENTID4args.
pub open spec fn setclientid_wire(
    verifier: Seq<u8>,
    owner: Seq<u8>,
    program: u32,
    netid: Seq<char>,
    addr: Seq<char>,
    ident: u32,
) -> Seq<u8> {
    verifier + opaque(owner) + be32(program) + opaque(encode_utf8(netid)) + opaque(
        encode_utf8(addr),
    ) + be32(ident)
}

pub open spec fn setclientid_args(identity: SetClientIdArgs) -> Seq<u8> {
    setclientid_wire(
        identity.verifier@,
        identity.owner@,
        identity.callback.program,
        identity.callback.netid@,
        identity.callback.addr@,
        identity.callback.ident,
    )
}

/// OPEN4args by name, denying nothing; a create is unchecked and sets no attributes.
pub open spec fn open_wire(
    seqid: u32,
    share_access: u32,
    client_id: u64,
    owner: Seq<u8>,
    filename: Seq<char>,
    create: bool,
) -> Seq<u8> {
    be32(seqid) + be32(share_access) + be32(0) + be64(client_id) + opaque(owner) + (if create {
        be32(1) + be32(0) + be32(0) + opaque(Seq::empty())
    } else {
        be32(0)
    }) + be32(0) + opaque(encode_utf8(filename))
}

pub open spec fn open_args(open: OpenArgs) -> Seq<u8> {
    open_wire(
        open.seqid,
        open.share_access,
        open.client_id,
        open.owner@,
        open.filename@,
        open.create,
    )
}

/// OPEN4args that reclaim what was open before the server restarted.
pub open spec fn open_reclaim_wire(seqid: u32, share_access: u32, client_id: u64, owner: Seq<u8>) -> Seq<
    u8,
> {
    be32(seqid) + be32(share_access) + be32(0) + be64(client_id) + opaque(owner) + be32(0) + be32(1)
        + be32(0)
}

pub open spec fn open_reclaim_args(open: OpenReclaimArgs) -> Seq<u8> {
    open_reclaim_wire(open.seqid, open.share_access, open.client_id, open.owner@)
}

/// A range to lock.
#[derive(Debug)]
pub struct LockRange {
    pub lock_type: u32,
    pub offset: u64,
    pub length: u64,
}

/// LOCK4args of a new lock owner.
pub open spec fn lock_new_wire(
    range: LockRange,
    reclaim: bool,
    open_seqid: u32,
    open_stateid: Seq<u8>,
    lock_seqid: u32,
    client_id: u64,
    owner: Seq<u8>,
) -> Seq<u8> {
    be32(range.lock_type) + bool32(reclaim) + be64(range.offset) + be64(range.length) + be32(1)
        + be32(open_seqid) + open_stateid + be32(lock_seqid) + be64(client_id) + opaque(owner)
}

pub open spec fn lock_new_args(lock: NewLockArgs) -> Seq<u8> {
    lock_new_wire(
        LockRange { lock_type: lock.lock_type, offset: lock.offset, length: lock.length },
        lock.reclaim,
        lock.open_seqid,
        lock.open_stateid@,
        lock.lock_seqid,
        lock.client_id,
        lock.owner@,
    )
}

/// Builds COMPOUND4args of NFSv4.0.
#[derive(Clone, Debug)]
pub struct CompoundBuilder {
    pub inner: CommonCompoundBuilder,
}

impl View for CompoundBuilder {
    type V = RawRequest;

    open spec fn view(&self) -> RawRequest {
        self.inner@
    }
}

impl CompoundBuilder {
    pub fn new(tag: &str) -> (builder: Self)
        ensures
            builder@ == (RawRequest { tag: tag@, minor: 0, ops: Seq::empty() }),
    {
        CompoundBuilder { inner: CommonCompoundBuilder::new(tag, 0) }
    }

    pub fn putrootfh(self) -> (builder: Self)
        ensures
            builder@ == self@.with_op(crate::nfs4::compound::OP_PUTROOTFH, Seq::empty()),
    {
        CompoundBuilder { inner: self.inner.putrootfh() }
    }

    pub fn putfh(self, fh: &[u8]) -> (builder: Self)
        ensures
            builder@ == self@.with_op(OP_PUTFH, opaque(fh@)),
    {
        CompoundBuilder { inner: self.inner.putfh(fh) }
    }

    pub fn lookup(self, name: &str) -> (builder: Self)
        ensures
            builder@ == self@.with_op(OP_LOOKUP, opaque(encode_utf8(name@))),
    {
        CompoundBuilder { inner: self.inner.lookup(name) }
    }

    pub fn getfh(self) -> (builder: Self)
        ensures
            builder@ == self@.with_op(OP_GETFH, Seq::empty()),
    {
        CompoundBuilder { inner: self.inner.getfh() }
    }

    fn operation(self, opcode: u32, args: Vec<u8>) -> (builder: Self)
        ensures
            builder@ == self@.with_op(opcode, args@),
    {
        CompoundBuilder { inner: self.inner.operation(opcode, args) }
    }

    pub fn setclientid(self, identity: SetClientIdArgs<'_>) -> (builder: Self)
        ensures
            builder@ == self@.with_op(OP_SETCLIENTID, setclientid_args(identity)),
    {
        let mut args: Vec<u8> = Vec::new();
        append_bytes(&mut args, &identity.verifier);
        xdr_opaque(&mut args, identity.owner);
        xdr_u32(&mut args, identity.callback.program);
        xdr_string(&mut args, identity.callback.netid);
        xdr_string(&mut args, identity.callback.addr);
        xdr_u32(&mut args, identity.callback.ident);
        assert(args@ =~= setclientid_args(identity));
        self.operation(OP_SETCLIENTID, args)
    }

    pub fn setclientid_confirm(self, client_id: u64, verifier: [u8; 8]) -> (builder: Self)
        ensures
            builder@ == self@.with_op(OP_SETCLIENTID_CONFIRM, be64(client_id) + verifier@),
    {
        let mut args: Vec<u8> = Vec::new();
        xdr_u64(&mut args, client_id);
        append_bytes(&mut args, &verifier);
        assert(args@ =~= be64(client_id) + verifier@);
        self.operation(OP_SETCLIENTID_CONFIRM, args)
    }

    pub fn open(self, open: OpenArgs<'_>) -> (builder: Self)
        ensures
            builder@ == self@.with_op(OP_OPEN, open_args(open)),
    {
        let mut args: Vec<u8> = Vec::new();
        xdr_u32(&mut args, open.seqid);
        xdr_u32(&mut args, open.share_access);
        xdr_u32(&mut args, 0); // OPEN4_SHARE_DENY_NONE
        xdr_u64(&mut args, open.client_id);
        xdr_opaque(&mut args, open.owner);
        if open.create {
            xdr_u32(&mut args, 1); // OPEN4_CREATE
            xdr_u32(&mut args, 0); // UNCHECKED4
            xdr_u32(&mut args, 0); // empty createattrs bitmap
            xdr_empty_opaque(&mut args);
        } else {
            xdr_u32(&mut args, 0); // OPEN4_NOCREATE
        }
        xdr_u32(&mut args, 0); // CLAIM_NULL
        xdr_string(&mut args, open.filename);
        assert(args@ =~= open_args(open));
        self.operation(OP_OPEN, args)
    }

    pub fn open_reclaim(self, open: OpenReclaimArgs<'_>) -> (builder: Self)
        ensures
            builder@ == self@.with_op(OP_OPEN, open_reclaim_args(open)),
    {
        let mut args: Vec<u8> = Vec::new();
        xdr_u32(&mut args, open.seqid);
        xdr_u32(&mut args, open.share_access);
        xdr_u32(&mut args, 0); // OPEN4_SHARE_DENY_NONE
        xdr_u64(&mut args, open.client_id);
        xdr_opaque(&mut args, open.owner);
        xdr_u32(&mut args, 0); // OPEN4_NOCREATE
        xdr_u32(&mut args, 1); // CLAIM_PREVIOUS
        xdr_u32(&mut args, 0); // OPEN_DELEGATE_NONE
        assert(args@ =~= open_reclaim_args(open));
        self.operation(OP_OPEN, args)
    }

    pub fn open_confirm(self, stateid: &[u8; 16], seqid: u32) -> (builder: Self)
        ensures
            builder@ == self@.with_op(OP_OPEN_CONFIRM, stateid@ + be32(seqid)),
    {
        let mut args: Vec<u8> = Vec::new();
        append_bytes(&mut args, stateid);
        xdr_u32(&mut args, seqid);
        assert(args@ =~= stateid@ + be32(seqid));
        self.operation(OP_OPEN_CONFIRM, args)
    }

    pub fn read(self, stateid: &[u8; 16], offset: u64, count: u32) -> (builder: Self)
        ensures
            builder@ == self@.with_op(OP_READ, stateid@ + be64(offset) + be32(count)),
    {
        let mut args: Vec<u8> = Vec::new();
        append_bytes(&mut args, stateid);
        xdr_u64(&mut args, offset);
        xdr_u32(&mut args, count);
        assert(args@ =~= stateid@ + be64(offset) + be32(count));
        self.operation(OP_READ, args)
    }

    pub fn lock_new(self, lock: NewLockArgs<'_>) -> (builder: Self)
        ensures
            builder@ == self@.with_op(OP_LOCK, lock_new_args(lock)),
    {
        let mut args: Vec<u8> = Vec::new();
        xdr_u32(&mut args, lock.lock_type);
        xdr_bool(&mut args, lock.reclaim);
        xdr_u64(&mut args, lock.offset);
        xdr_u64(&mut args, lock.length);
        xdr_u32(&mut args, 1); // new_lock_owner
        xdr_u32(&mut args, lock.open_seqid);
        append_bytes(&mut args, lock.open_stateid);
        xdr_u32(&mut args, lock.lock_seqid);
        xdr_u64(&mut args, lock.client_id);
        xdr_opaque(&mut args, lock.owner);
        assert(args@ =~= lock_new_args(lock));
        self.operation(OP_LOCK, args)
    }

    pub fn lockt(
        self,
        lock_type: u32,
        offset: u64,
        length: u64,
        client_id: u64,
        owner: &[u8],
    ) -> (builder: Self)
        ensures
            builder@ == self@.with_op(
                OP_LOCKT,
                be32(lock_type) + be64(offset) + be64(length) + be64(client_id) + opaque(owner@),
            ),
    {
        let mut args: Vec<u8> = Vec::new();
        xdr_u32(&mut args, lock_type);
        xdr_u64(&mut args, offset);
        xdr_u64(&mut args, length);
        xdr_u64(&mut args, client_id);
        xdr_opaque(&mut args, owner);
        assert(args@ =~= be32(lock_type) + be64(offset) + be64(length) + be64(client_id)
            + opaque(owner@));
        self.operation(OP_LOCKT, args)
    }

    pub fn locku(
        self,
        lock_type: u32,
        seqid: u32,
        stateid: &[u8; 16],
        offset: u64,
        length: u64,
    ) -> (builder: Self)
        ensures
            builder@ == self@.with_op(
                OP_LOCKU,
                be32(lock_type) + be32(seqid) + stateid@ + be64(offset) + be64(length),
            ),
    {
        let mut args: Vec<u8> = Vec::new();
        xdr_u32(&mut args, lock_type);
        xdr_u32(&mut args, seqid);
        append_bytes(&mut args, stateid);
        xdr_u64(&mut args, offset);
        xdr_u64(&mut args, length);
        assert(args@ =~= be32(lock_type) + be32(seqid) + stateid@ + be64(offset) + be64(length));
        self.operation(OP_LOCKU, args)
    }

    pub fn release_lockowner(self, client_id: u64, owner: &[u8]) -> (builder: Self)
        ensures
            builder@ == self@.with_op(OP_RELEASE_LOCKOWNER, be64(client_id) + opaque(owner@)),
    {
        let mut args: Vec<u8> = Vec::new();
        xdr_u64(&mut args, client_id);
        xdr_opaque(&mut args, owner);
        assert(args@ =~= be64(client_id) + opaque(owner@));
        self.operation(OP_RELEASE_LOCKOWNER, args)
    }

    pub fn renew(self, client_id: u64) -> (builder: Self)
        ensures
            builder@ == self@.with_op(OP_RENEW, be64(client_id)),
    {
        let mut args: Vec<u8> = Vec::new();
        xdr_u64(&mut args, client_id);
        assert(args@ =~= be64(client_id));
        self.operation(OP_RENEW, args)
    }

    /// WRITE up to the length of the data; the data itself is sent behind the request.
    pub fn write_header(
        self,
        stateid: &[u8; 16],
        offset: u64,
        stable: u32,
        data_len: u32,
    ) -> (builder: Self)
        ensures
            builder@ == self@.with_op(
                OP_WRITE,
                stateid@ + be64(offset) + be32(stable) + be32(data_len),
            ),
    {
        let mut args: Vec<u8> = Vec::new();
        append_bytes(&mut args, stateid);
        xdr_u64(&mut args, offset);
        xdr_u32(&mut args, stable);
        xdr_u32(&mut args, data_len);
        assert(args@ =~= stateid@ + be64(offset) + be32(stable) + be32(data_len));
        self.operation(OP_WRITE, args)
    }

    pub fn commit(self, offset: u64, count: u32) -> (builder: Self)
        ensures
            builder@ == self@.with_op(OP_COMMIT, be64(offset) + be32(count)),
    {
        let mut args: Vec<u8> = Vec::new();
        xdr_u64(&mut args, offset);
        xdr_u32(&mut args, count);
        assert(args@ =~= be64(offset) + be32(count));
        self.operation(OP_COMMIT, args)
    }

    pub fn close(self, seqid: u32, stateid: &[u8; 16]) -> (builder: Self)
        ensures
            builder@ == self@.with_op(OP_CLOSE, be32(seqid) + stateid@),
    {
        let mut args: Vec<u8> = Vec::new();
        xdr_u32(&mut args, seqid);
        append_bytes(&mut args, stateid);
        assert(args@ =~= be32(seqid) + stateid@);
        self.operation(OP_CLOSE, args)
    }

    pub fn getattr(self, bitmap: &[u32]) -> (builder: Self)
        ensures
            builder@ == self@.with_op(OP_GETATTR, bitmap4(bitmap@)),
    {
        let mut args: Vec<u8> = Vec::new();
        xdr_bitmap(&mut args, bitmap);
        assert(args@ =~= bitmap4(bitmap@));
        self.operation(OP_GETATTR, args)
    }

    pub fn access(self, requested: u32) -> (builder: Self)
        ensures
            builder@ == self@.with_op(OP_ACCESS, be32(requested)),
    {
        let mut args: Vec<u8> = Vec::new();
        xdr_u32(&mut args, requested);
        assert(args@ =~= be32(requested));
        self.operation(OP_ACCESS, args)
    }

    pub fn setattr(self, stateid: &[u8; 16], bitmap: &[u32], values: &[u8]) -> (builder: Self)
        ensures
            builder@ == self@.with_op(OP_SETATTR, stateid@ + bitmap4(bitmap@) + opaque(values@)),
    {
        let mut args: Vec<u8> = Vec::new();
        append_bytes(&mut args, stateid);
        xdr_bitmap(&mut args, bitmap);
        xdr_opaque(&mut args, values);
        assert(args@ =~= stateid@ + bitmap4(bitmap@) + opaque(values@));
        self.operation(OP_SETATTR, args)
    }

    /// CREATE of a directory (NF4DIR) with no attributes.
    pub fn create_directory(self, name: &str) -> (builder: Self)
        ensures
            builder@ == self@.with_op(
                OP_CREATE,
                be32(2) + opaque(encode_utf8(name@)) + be32(0) + opaque(Seq::empty()),
            ),
    {
        let mut args: Vec<u8> = Vec::new();
        xdr_u32(&mut args, 2);
        xdr_string(&mut args, name);
        xdr_u32(&mut args, 0);
        xdr_empty_opaque(&mut args);
        assert(args@ =~= be32(2) + opaque(encode_utf8(name@)) + be32(0) + opaque(Seq::empty()));
        self.operation(OP_CREATE, args)
    }

    /// CREATE of a symbolic link (NF4LNK) with no attributes; the target comes before the name.
    pub fn create_symlink(self, name: &str, target: &str) -> (builder: Self)
        ensures
            builder@ == self@.with_op(
                OP_CREATE,
                be32(5) + opaque(encode_utf8(target@)) + opaque(encode_utf8(name@)) + be32(0)
                    + opaque(Seq::empty()),
            ),
    {
        let mut args: Vec<u8> = Vec::new();
        xdr_u32(&mut args, 5);
        xdr_string(&mut args, target);
        xdr_string(&mut args, name);
        xdr_u32(&mut args, 0);
        xdr_empty_opaque(&mut args);
        assert(args@ =~= be32(5) + opaque(encode_utf8(target@)) + opaque(encode_utf8(name@))
            + be32(0) + opaque(Seq::empty()));
        self.operation(OP_CREATE, args)
    }

    pub fn savefh(self) -> (builder: Self)
        ensures
            builder@ == self@.with_op(OP_SAVEFH, Seq::empty()),
    {
        self.operation(OP_SAVEFH, Vec::new())
    }

    pub fn rename(self, from: &str, to: &str) -> (builder: Self)
        ensures
            builder@ == self@.with_op(
                OP_RENAME,
                opaque(encode_utf8(from@)) + opaque(encode_utf8(to@)),
            ),
    {
        let mut args: Vec<u8> = Vec::new();
        xdr_string(&mut args, from);
        xdr_string(&mut args, to);
        assert(args@ =~= opaque(encode_utf8(from@)) + opaque(encode_utf8(to@)));
        self.operation(OP_RENAME, args)
    }

    pub fn link(self, name: &str) -> (builder: Self)
        ensures
            builder@ == self@.with_op(OP_LINK, opaque(encode_utf8(name@))),
    {
        let mut args: Vec<u8> = Vec::new();
        xdr_string(&mut args, name);
        assert(args@ =~= opaque(encode_utf8(name@)));
        self.operation(OP_LINK, args)
    }

    pub fn readlink(self) -> (builder: Self)
        ensures
            builder@ == self@.with_op(OP_READLINK, Seq::empty()),
    {
        self.operation(OP_READLINK, Vec::new())
    }

    pub fn readdir(
        self,
        cookie: u64,
        verifier: &[u8; 8],
        dircount: u32,
        maxcount: u32,
        bitmap: &[u32],
    ) -> (builder: Self)
        ensures
            builder@ == self@.with_op(
                OP_READDIR,
                be64(cookie) + verifier@ + be32(dircount) + be32(maxcount) + bitmap4(bitmap@),
            ),
    {
        let mut args: Vec<u8> = Vec::new();
        xdr_u64(&mut args, cookie);
        append_bytes(&mut args, verifier);
        xdr_u32(&mut args, dircount);
        xdr_u32(&mut args, maxcount);
        xdr_bitmap(&mut args, bitmap);
        assert(args@ =~= be64(cookie) + verifier@ + be32(dircount) + be32(maxcount)
            + bitmap4(bitmap@));
        self.operation(OP_READDIR, args)
    }

    pub fn remove(self, name: &str) -> (builder: Self)
        ensures
            builder@ == self@.with_op(OP_REMOVE, opaque(encode_utf8(name@))),
    {
        let mut args: Vec<u8> = Vec::new();
        xdr_string(&mut args, name);
        assert(args@ =~= opaque(encode_utf8(name@)));
        self.operation(OP_REMOVE, args)
    }

    pub fn delegreturn(self, stateid: &[u8; 16]) -> (builder: Self)
        ensures
            builder@ == self@.with_op(OP_DELEGRETURN, stateid@),
    {
        let mut args: Vec<u8> = Vec::new();
        append_bytes(&mut args, stateid);
        assert(args@ =~= stateid@);
        self.operation(OP_DELEGRETURN, args)
    }

    /// The COMPOUND4args.
    pub fn encode_body(self) -> (body: Vec<u8>)
        ensures
            body@ == raw_compound_args(self@),
    {
        self.inner.encode_body()
    }

    /// The whole call.
    pub fn encode_with_header(self, auth: &Auth) -> (call: Vec<u8>)
        ensures
            call@ == call_header(
                NFS4_PROGRAM,
                NFS4_VERSION,
                NFS4_COMPOUND_PROC,
                auth.flavor,
                auth.body@,
            ) + raw_compound_args(self@),
    {
        self.inner.encode_with_header(auth)
    }
}

/// Appends an opaque of no bytes.
fn xdr_empty_opaque(buf: &mut Vec<u8>)
    ensures
        final(buf)@ == old(buf)@ + opaque(Seq::empty()),
{
    let nothing: Vec<u8> = Vec::new();
    assert(nothing@ =~= Seq::empty());
    xdr_opaque(buf, &nothing)
}

/// A reply with the expected number of results, at the first of them.
pub open spec fn counted(s: Seq<u8>, label: Seq<char>, expected: u32) -> Parsed<()> {
    chain(
        reply_head(s),
        |count: u32, s: Seq<u8>|
            if count != expected {
                Err::<((), Seq<u8>), ErrorView>(
                    ErrorView::Xdr(
                        label + " response has "@ + decimal(count as nat)
                            + " operations, expected "@ + decimal(expected as nat),
                    ),
                )
            } else {
                Ok(((), s))
            },
    )
}

/// The results of PUTFH and one more operation, at the data of that operation.
pub open spec fn putfh_and(s: Seq<u8>, opcode: u32, name: Seq<char>) -> Parsed<()> {
    chain(
        counted(s, name, 2),
        |ok: (), s: Seq<u8>|
            chain(op_head(s, OP_PUTFH, "PUTFH"@), |ok: (), s: Seq<u8>| op_head(s, opcode, name)),
    )
}

/// The results of PUTFH, SAVEFH, PUTFH and one more operation, at the data of that operation.
pub open spec fn saved_and(s: Seq<u8>, opcode: u32, name: Seq<char>) -> Parsed<()> {
    chain(
        counted(s, name, 4),
        |ok: (), s: Seq<u8>|
            chain(
                op_head(s, OP_PUTFH, "PUTFH"@),
                |ok: (), s: Seq<u8>|
                    chain(
                        op_head(s, OP_SAVEFH, "SAVEFH"@),
                        |ok: (), s: Seq<u8>|
                            chain(
                                op_head(s, OP_PUTFH, "PUTFH"@),
                                |ok: (), s: Seq<u8>| op_head(s, opcode, name),
                            ),
                    ),
            ),
    )
}

/// The result of a single operation, at its data. The reply is refused as a whole unless it
/// holds just that operation.
pub open spec fn only_op(s: Seq<u8>, opcode: u32, name: Seq<char>) -> Parsed<()> {
    chain(
        reply_head(s),
        |count: u32, s: Seq<u8>|
            {
                let mismatch = Err::<((), Seq<u8>), ErrorView>(
                    ErrorView::Xdr(name + " response operation mismatch"@),
                );
                if count != 1 {
                    mismatch
                } else {
                    chain(
                        word_item(s, name + " opcode"@),
                        |actual: u32, s: Seq<u8>|
                            if actual != opcode {
                                mismatch
                            } else {
                                ok_status(s, name + " status"@)
                            },
                    )
                }
            },
    )
}

/// A state at the front of `s`.
pub open spec fn stateid_item(s: Seq<u8>, what: Seq<char>) -> Parsed<Seq<u8>> {
    fixed_item(s, 16, what + " stateid truncated"@)
}

/// Walks over an attribute bitmap.
pub open spec fn bitmap_item(s: Seq<u8>, what: Seq<char>) -> Parsed<()> {
    chain(
        word_item(s, what + " bitmap length"@),
        |words: u32, s: Seq<u8>|
            if s.len() < words * 4 {
                Err::<((), Seq<u8>), ErrorView>(ErrorView::Xdr(what + " bitmap truncated"@))
            } else {
                Ok(((), s.skip(words * 4)))
            },
    )
}

/// Walks over an access control entry.
pub open spec fn ace_item(s: Seq<u8>) -> Parsed<()> {
    chain(
        word_item(s, "ACE type"@),
        |acetype: u32, s: Seq<u8>|
            chain(
                word_item(s, "ACE flags"@),
                |flags: u32, s: Seq<u8>|
                    chain(
                        word_item(s, "ACE mask"@),
                        |mask: u32, s: Seq<u8>|
                            chain(
                                opaque_item(s, "ACE who"@),
                                |who: Seq<u8>, s: Seq<u8>| Ok::<((), Seq<u8>), ErrorView>(((), s)),
                            ),
                    ),
            ),
    )
}

/// Walks over the limit of a write delegation.
pub open spec fn space_limit_item(s: Seq<u8>) -> Parsed<()> {
    chain(
        word_item(s, "space limit"@),
        |limit_by: u32, s: Seq<u8>|
            if limit_by == 1 {
                if s.len() < 8 {
                    Err::<((), Seq<u8>), ErrorView>(ErrorView::Xdr("delegation size truncated"@))
                } else {
                    Ok(((), s.skip(8)))
                }
            } else if limit_by == 2 {
                if s.len() < 16 {
                    Err(ErrorView::Xdr("delegation blocks truncated"@))
                } else {
                    Ok(((), s.skip(16)))
                }
            } else {
                Err(
                    ErrorView::Xdr("invalid delegation space limit "@ + decimal(limit_by as nat)),
                )
            },
    )
}

/// Walks over an open_delegation4.
pub open spec fn delegation_item(s: Seq<u8>) -> Parsed<()> {
    chain(
        word_item(s, "delegation type"@),
        |kind: u32, s: Seq<u8>|
            if kind == 0 {
                Ok::<((), Seq<u8>), ErrorView>(((), s))
            } else if kind == 1 {
                chain(
                    stateid_item(s, "read delegation"@),
                    |stateid: Seq<u8>, s: Seq<u8>|
                        chain(word_item(s, "recall"@), |recall: u32, s: Seq<u8>| ace_item(s)),
                )
            } else if kind == 2 {
                chain(
                    stateid_item(s, "write delegation"@),
                    |stateid: Seq<u8>, s: Seq<u8>|
                        chain(
                            word_item(s, "recall"@),
                            |recall: u32, s: Seq<u8>|
                                chain(space_limit_item(s), |ok: (), s: Seq<u8>| ace_item(s)),
                        ),
                )
            } else {
                Err(ErrorView::Xdr("unsupported delegation type "@ + decimal(kind as nat)))
            },
    )
}

fn take_counted(buf: Bytes, label: &str, expected: u32) -> (ops: Result<Bytes>)
    ensures
        at_rest(ops, counted(contents(buf), label@, expected)),
{
    let (count, ops): (u32, Bytes) = response_ops(buf)?;
    if count != expected {
        let mut text = concat2(label, " response has ");
        push_decimal(&mut text, count as u64);
        text.append(" operations, expected ");
        push_decimal(&mut text, expected as u64);
        return Err(NfsError::Xdr(text));
    }
    Ok(ops)
}

/// Whether a buffer was brought to where it is expected.
pub open spec fn at_rest(result: Result<Bytes>, expected: Parsed<()>) -> bool {
    match expected {
        Ok((_, rest)) => result is Ok && contents(result->Ok_0) == rest,
        Err(error) => result is Err && result->Err_0@ == error,
    }
}

fn take_putfh_and(buf: Bytes, opcode: u32, name: &str) -> (ops: Result<Bytes>)
    ensures
        at_rest(ops, putfh_and(contents(buf), opcode, name@)),
{
    let mut ops = take_counted(buf, name, 2)?;
    expect_op(&mut ops, OP_PUTFH, "PUTFH")?;
    expect_op(&mut ops, opcode, name)?;
    Ok(ops)
}

fn take_saved_and(buf: Bytes, opcode: u32, name: &str) -> (ops: Result<Bytes>)
    ensures
        at_rest(ops, saved_and(contents(buf), opcode, name@)),
{
    let mut ops = take_counted(buf, name, 4)?;
    expect_op(&mut ops, OP_PUTFH, "PUTFH")?;
    expect_op(&mut ops, OP_SAVEFH, "SAVEFH")?;
    expect_op(&mut ops, OP_PUTFH, "PUTFH")?;
    expect_op(&mut ops, opcode, name)?;
    Ok(ops)
}

fn take_only_op(buf: Bytes, opcode: u32, name: &str) -> (ops: Result<Bytes>)
    ensures
        at_rest(ops, only_op(contents(buf), opcode, name@)),
{
    let (count, mut ops): (u32, Bytes) = response_ops(buf)?;
    if count != 1 {
        return Err(NfsError::Xdr(concat2(name, " response operation mismatch")));
    }
    let actual: u32 = take_u32(&mut ops, concat2(name, " opcode").as_str())?;
    if actual != opcode {
        return Err(NfsError::Xdr(concat2(name, " response operation mismatch")));
    }
    let status: u32 = take_u32(&mut ops, concat2(name, " status").as_str())?;
    check_status(status)?;
    Ok(ops)
}

pub fn take_stateid(buf: &mut Bytes, what: &str) -> (stateid: Result<[u8; 16]>)
    ensures
        match stateid_item(contents(*old(buf)), what@) {
            Ok((expected, rest)) => stateid is Ok && stateid->Ok_0@ == expected && contents(
                *final(buf),
            ) == rest,
            Err(error) => stateid is Err && stateid->Err_0@ == error,
        },
{
    if remaining(buf) < 16 {
        return Err(NfsError::Xdr(concat2(what, " stateid truncated")));
    }
    let stateid: [u8; 16] = take_array(buf);
    Ok(stateid)
}

pub fn skip_bitmap(buf: &mut Bytes, what: &str) -> (result: Result<()>)
    ensures
        read_as(result, contents(*final(buf)), bitmap_item(contents(*old(buf)), what@)),
{
    let words: u32 = take_u32(buf, concat2(what, " bitmap length").as_str())?;
    let bytes: u64 = words as u64 * 4;
    if (remaining(buf) as u64) < bytes {
        return Err(NfsError::Xdr(concat2(what, " bitmap truncated")));
    }
    advance(buf, bytes as usize);
    Ok(())
}

pub fn skip_ace(buf: &mut Bytes) -> (result: Result<()>)
    ensures
        read_as(result, contents(*final(buf)), ace_item(contents(*old(buf)))),
{
    let _ = take_u32(buf, "ACE type")?;
    let _ = take_u32(buf, "ACE flags")?;
    let _ = take_u32(buf, "ACE mask")?;
    let _ = take_opaque(buf, "ACE who")?;
    Ok(())
}

fn skip_space_limit(buf: &mut Bytes) -> (result: Result<()>)
    ensures
        read_as(result, contents(*final(buf)), space_limit_item(contents(*old(buf)))),
{
    let limit_by: u32 = take_u32(buf, "space limit")?;
    match limit_by {
        1 => {
            if remaining(buf) < 8 {
                return Err(xdr_error("delegation size truncated"));
            }
            advance(buf, 8);
            Ok(())
        },
        2 => {
            if remaining(buf) < 16 {
                return Err(xdr_error("delegation blocks truncated"));
            }
            advance(buf, 16);
            Ok(())
        },
        _ => Err(NfsError::Xdr(with_number("invalid delegation space limit ", limit_by as u64))),
    }
}

pub fn skip_delegation(buf: &mut Bytes) -> (result: Result<()>)
    ensures
        read_as(result, contents(*final(buf)), delegation_item(contents(*old(buf)))),
{
    let kind: u32 = take_u32(buf, "delegation type")?;
    match kind {
        0 => Ok(()),
        1 => {
            let _ = take_stateid(buf, "read delegation")?;
            let _ = take_u32(buf, "recall")?;
            skip_ace(buf)
        },
        2 => {
            let _ = take_stateid(buf, "write delegation")?;
            let _ = take_u32(buf, "recall")?;
            skip_space_limit(buf)?;
            skip_ace(buf)
        },
        _ => Err(NfsError::Xdr(with_number("unsupported delegation type ", kind as u64))),
    }
}

/// The client identifier and the verifier to confirm it with.
pub open spec fn setclientid_response(s: Seq<u8>) -> Decoded<(u64, Seq<u8>)> {
    chain(
        only_op(s, OP_SETCLIENTID, "SETCLIENTID"@),
        |ok: (), s: Seq<u8>|
            if s.len() < 16 {
                Err::<(u64, Seq<u8>), ErrorView>(ErrorView::Xdr("SETCLIENTID result truncated"@))
            } else {
                Ok((hyper(s), s.subrange(8, 16)))
            },
    )
}

pub fn decode_setclientid_response(buf: Bytes) -> (identity: Result<(u64, [u8; 8])>)
    ensures
        match setclientid_response(contents(buf)) {
            Ok((client_id, verifier)) => identity is Ok && identity->Ok_0.0 == client_id
                && identity->Ok_0.1@ == verifier,
            Err(error) => identity is Err && identity->Err_0@ == error,
        },
{
    let mut ops = take_only_op(buf, OP_SETCLIENTID, "SETCLIENTID")?;
    let ghost s = contents(ops);
    if remaining(&ops) < 16 {
        return Err(xdr_error("SETCLIENTID result truncated"));
    }
    let client_id: u64 = get_u64(&mut ops);
    let verifier: [u8; 8] = take_array(&mut ops);
    assert(s.skip(8).take(8) =~= s.subrange(8, 16));
    Ok((client_id, verifier))
}

/// Whether a decoder without a result went as expected.
pub open spec fn done_as<T>(result: Result<()>, expected: Decoded<T>) -> bool {
    match expected {
        Ok(_) => result is Ok,
        Err(error) => result is Err && result->Err_0@ == error,
    }
}

pub fn decode_confirm_response(buf: Bytes) -> (result: Result<()>)
    ensures
        done_as(
            result,
            only_op(contents(buf), OP_SETCLIENTID_CONFIRM, "SETCLIENTID_CONFIRM"@),
        ),
{
    let _ = take_only_op(buf, OP_SETCLIENTID_CONFIRM, "SETCLIENTID_CONFIRM")?;
    Ok(())
}

/// What OPEN returns: the state, whether it has to be confirmed, and the filehandle.
pub open spec fn open_response(s: Seq<u8>) -> Decoded<(Seq<u8>, bool, Seq<u8>)> {
    chain(
        counted(s, "OPEN"@, 3),
        |ok: (), s: Seq<u8>|
            chain(
                op_head(s, OP_PUTFH, "PUTFH"@),
                |ok: (), s: Seq<u8>|
                    chain(op_head(s, OP_OPEN, "OPEN"@), |ok: (), s: Seq<u8>| opened(s)),
            ),
    )
}

/// The data of OPEN and the result of GETFH behind it.
pub open spec fn opened(s: Seq<u8>) -> Decoded<(Seq<u8>, bool, Seq<u8>)> {
    chain(
        stateid_item(s, "OPEN"@),
        |stateid: Seq<u8>, s: Seq<u8>|
            chain(
                fixed_item(s, 20, "OPEN change_info truncated"@),
                |change: Seq<u8>, s: Seq<u8>|
                    chain(
                        word_item(s, "OPEN result flags"@),
                        |flags: u32, s: Seq<u8>|
                            chain(
                                bitmap_item(s, "OPEN attrset"@),
                                |ok: (), s: Seq<u8>|
                                    chain(
                                        delegation_item(s),
                                        |ok: (), s: Seq<u8>|
                                            chain(
                                                getfh_item(s),
                                                |fh: Seq<u8>, s: Seq<u8>|
                                                    Ok::<(Seq<u8>, bool, Seq<u8>), ErrorView>(
                                                        (
                                                            stateid,
                                                            flags & OPEN4_RESULT_CONFIRM != 0,
                                                            fh,
                                                        ),
                                                    ),
                                            ),
                                    ),
                            ),
                    ),
            ),
    )
}

/// The result of GETFH.
pub open spec fn getfh_item(s: Seq<u8>) -> Parsed<Seq<u8>> {
    chain(
        op_head(s, OP_GETFH, "GETFH"@),
        |ok: (), s: Seq<u8>| opaque_item(s, "GETFH filehandle"@),
    )
}

fn take_getfh(buf: &mut Bytes) -> (fh: Result<Bytes>)
    ensures
        bytes_read_as(fh, contents(*final(buf)), getfh_item(contents(*old(buf)))),
{
    expect_op(buf, OP_GETFH, "GETFH")?;
    take_opaque(buf, "GETFH filehandle")
}

pub fn decode_open_response(buf: Bytes) -> (result: Result<(OpenResult, Bytes)>)
    ensures
        match open_response(contents(buf)) {
            Ok((stateid, confirm_required, fh)) => result is Ok && result->Ok_0.0.stateid@ == stateid
                && result->Ok_0.0.confirm_required == confirm_required && contents(result->Ok_0.1)
                == fh,
            Err(error) => result is Err && result->Err_0@ == error,
        },
{
    let mut buf = take_counted(buf, "OPEN", 3)?;
    expect_op(&mut buf, OP_PUTFH, "PUTFH")?;
    expect_op(&mut buf, OP_OPEN, "OPEN")?;
    let stateid = take_stateid(&mut buf, "OPEN")?;
    if remaining(&buf) < 20 {
        return Err(xdr_error("OPEN change_info truncated"));
    }
    advance(&mut buf, 20);
    let flags: u32 = take_u32(&mut buf, "OPEN result flags")?;
    skip_bitmap(&mut buf, "OPEN attrset")?;
    skip_delegation(&mut buf)?;
    let fh = take_getfh(&mut buf)?;
    Ok((OpenResult { stateid, confirm_required: flags & OPEN4_RESULT_CONFIRM != 0 }, fh))
}

/// Whether a reply says that its PUTFH and the operation behind it succeeded although the
/// request as a whole failed.
pub open spec fn succeeded_before_failure(s: Seq<u8>, opcode: u32) -> bool {
    let tag = opaque_item(s.skip(4), "COMPOUND tag"@);
    &&& s.len() >= 4
    &&& word(s) != 0
    &&& tag is Ok
    &&& ({
        let s = tag->Ok_0.1;
        &&& s.len() >= 20
        &&& word(s) >= 2
        &&& word(s.skip(4)) == OP_PUTFH
        &&& word(s.skip(8)) == 0
        &&& word(s.skip(12)) == opcode
        &&& word(s.skip(16)) == 0
    })
}

fn second_op_succeeded(buf: Bytes, opcode: u32) -> (succeeded: bool)
    ensures
        succeeded == succeeded_before_failure(contents(buf), opcode),
{
    let mut buf = buf;
    if remaining(&buf) < 4 || get_u32(&mut buf) == 0 {
        return false;
    }
    if take_opaque(&mut buf, "COMPOUND tag").is_err() {
        return false;
    }
    let ghost s = contents(buf);
    if remaining(&buf) < 20 {
        return false;
    }
    let count: u32 = get_u32(&mut buf);
    let first: u32 = get_u32(&mut buf);
    let first_status: u32 = get_u32(&mut buf);
    let second: u32 = get_u32(&mut buf);
    let second_status: u32 = get_u32(&mut buf);
    assert(s.skip(4).skip(4) =~= s.skip(8));
    assert(s.skip(8).skip(4) =~= s.skip(12));
    assert(s.skip(12).skip(4) =~= s.skip(16));
    count >= 2 && first == OP_PUTFH && first_status == 0 && second == opcode && second_status == 0
}

pub fn open_succeeded_before_compound_failure(buf: Bytes) -> (succeeded: bool)
    ensures
        succeeded == succeeded_before_failure(contents(buf), OP_OPEN),
{
    second_op_succeeded(buf, OP_OPEN)
}

pub fn create_succeeded_before_compound_failure(buf: Bytes) -> (succeeded: bool)
    ensures
        succeeded == succeeded_before_failure(contents(buf), OP_CREATE),
{
    second_op_succeeded(buf, OP_CREATE)
}

/// The attributes, from their bitmap on.
pub fn decode_getattr_response(buf: Bytes) -> (attrs: Result<Bytes>)
    ensures
        at_rest(attrs, putfh_and(contents(buf), OP_GETATTR, "GETATTR"@)),
{
    take_putfh_and(buf, OP_GETATTR, "GETATTR")
}

/// The access bits that the server supports and those that it grants.
pub open spec fn access_response(s: Seq<u8>) -> Decoded<(u32, u32)> {
    chain(
        putfh_and(s, OP_ACCESS, "ACCESS"@),
        |ok: (), s: Seq<u8>|
            chain(
                word_item(s, "ACCESS supported"@),
                |supported: u32, s: Seq<u8>|
                    chain(
                        word_item(s, "ACCESS granted"@),
                        |access: u32, s: Seq<u8>|
                            if access & !supported != 0 {
                                Err::<(u32, u32), ErrorView>(
                                    ErrorView::Xdr("ACCESS granted bits exceed supported bits"@),
                                )
                            } else {
                                Ok((supported, access))
                            },
                    ),
            ),
    )
}

pub fn decode_access_response(buf: Bytes) -> (result: Result<(u32, u32)>)
    ensures
        match access_response(contents(buf)) {
            Ok(expected) => result is Ok && result->Ok_0 == expected,
            Err(error) => result is Err && result->Err_0@ == error,
        },
{
    let mut ops = take_putfh_and(buf, OP_ACCESS, "ACCESS")?;
    let supported: u32 = take_u32(&mut ops, "ACCESS supported")?;
    let access: u32 = take_u32(&mut ops, "ACCESS granted")?;
    if access & !supported != 0 {
        return Err(xdr_error("ACCESS granted bits exceed supported bits"));
    }
    Ok((supported, access))
}

/// The words of attrsset from `index` on: each may only hold bits that were requested.
pub open spec fn attrsset(s: Seq<u8>, requested: Seq<u32>, index: nat, count: nat) -> Decoded<()>
    decreases count - index,
{
    if index >= count {
        Ok(())
    } else {
        match word_item(s, "SETATTR attrsset word"@) {
            Err(error) => Err(error),
            Ok((set, rest)) => {
                let wanted = if index < requested.len() {
                    requested[index as int]
                } else {
                    0u32
                };
                if set & !wanted != 0 {
                    Err(ErrorView::Xdr("SETATTR response reports an unrequested attribute"@))
                } else {
                    attrsset(rest, requested, index + 1, count)
                }
            },
        }
    }
}

/// What SETATTR returns.
pub open spec fn setattr_response(s: Seq<u8>, requested: Seq<u32>) -> Decoded<()> {
    chain(
        putfh_and(s, OP_SETATTR, "SETATTR"@),
        |ok: (), s: Seq<u8>|
            chain(
                word_item(s, "SETATTR attrsset length"@),
                |count: u32, s: Seq<u8>| attrsset(s, requested, 0, count as nat),
            ),
    )
}

fn check_attrsset(ops: &mut Bytes, requested: &[u32], count: u32) -> (result: Result<()>)
    ensures
        done_as(result, attrsset(contents(*old(ops)), requested@, 0, count as nat)),
{
    let mut index: u32 = 0;
    while index < count
        invariant
            index <= count,
            attrsset(contents(*old(ops)), requested@, 0, count as nat) == attrsset(
                contents(*ops),
                requested@,
                index as nat,
                count as nat,
            ),
        decreases count - index,
    {
        let set: u32 = take_u32(ops, "SETATTR attrsset word")?;
        let wanted: u32 = if (index as u64) < requested.len() as u64 {
            requested[index as usize]
        } else {
            0
        };
        if set & !wanted != 0 {
            return Err(xdr_error("SETATTR response reports an unrequested attribute"));
        }
        index += 1;
    }
    Ok(())
}

pub fn decode_setattr_response(buf: Bytes, requested: &[u32]) -> (result: Result<()>)
    ensures
        done_as(result, setattr_response(contents(buf), requested@)),
{
    let mut ops = take_putfh_and(buf, OP_SETATTR, "SETATTR")?;
    let words: u32 = take_u32(&mut ops, "SETATTR attrsset length")?;
    check_attrsset(&mut ops, requested, words)
}

/// The filehandle and the attributes that GETFH and GETATTR return.
pub open spec fn fh_and_attrs(s: Seq<u8>) -> Decoded<(Seq<u8>, Seq<u8>)> {
    chain(
        getfh_item(s),
        |fh: Seq<u8>, s: Seq<u8>|
            chain(
                op_head(s, OP_GETATTR, "GETATTR"@),
                |ok: (), s: Seq<u8>| Ok::<(Seq<u8>, Seq<u8>), ErrorView>((fh, s)),
            ),
    )
}

/// Whether a filehandle and attributes were read as expected.
pub open spec fn pair_as(result: Result<(Bytes, Bytes)>, expected: Decoded<(Seq<u8>, Seq<u8>)>) -> bool {
    match expected {
        Ok((fh, attrs)) => result is Ok && contents(result->Ok_0.0) == fh && contents(
            result->Ok_0.1,
        ) == attrs,
        Err(error) => result is Err && result->Err_0@ == error,
    }
}

fn take_fh_and_attrs(ops: Bytes) -> (result: Result<(Bytes, Bytes)>)
    ensures
        pair_as(result, fh_and_attrs(contents(ops))),
{
    let mut ops = ops;
    let fh = take_getfh(&mut ops)?;
    expect_op(&mut ops, OP_GETATTR, "GETATTR")?;
    Ok((fh, ops))
}

/// What LOOKUP with GETFH and GETATTR returns.
pub open spec fn lookup_response(s: Seq<u8>) -> Decoded<(Seq<u8>, Seq<u8>)> {
    chain(
        counted(s, "LOOKUP"@, 4),
        |ok: (), s: Seq<u8>|
            chain(
                op_head(s, OP_PUTFH, "PUTFH"@),
                |ok: (), s: Seq<u8>|
                    chain(op_head(s, OP_LOOKUP, "LOOKUP"@), |ok: (), s: Seq<u8>| fh_and_attrs(s)),
            ),
    )
}

pub fn decode_lookup_getattr_response(buf: Bytes) -> (result: Result<(Bytes, Bytes)>)
    ensures
        pair_as(result, lookup_response(contents(buf))),
{
    let mut ops = take_counted(buf, "LOOKUP", 4)?;
    expect_op(&mut ops, OP_PUTFH, "PUTFH")?;
    expect_op(&mut ops, OP_LOOKUP, "LOOKUP")?;
    take_fh_and_attrs(ops)
}

/// What CREATE with GETFH and GETATTR returns.
pub open spec fn create_response(s: Seq<u8>) -> Decoded<(Seq<u8>, Seq<u8>)> {
    chain(
        counted(s, "CREATE"@, 4),
        |ok: (), s: Seq<u8>|
            chain(
                op_head(s, OP_PUTFH, "PUTFH"@),
                |ok: (), s: Seq<u8>|
                    chain(
                        op_head(s, OP_CREATE, "CREATE"@),
                        |ok: (), s: Seq<u8>|
                            chain(
                                fixed_item(s, 20, "CREATE change_info truncated"@),
                                |change: Seq<u8>, s: Seq<u8>|
                                    chain(
                                        bitmap_item(s, "CREATE attrset"@),
                                        |ok: (), s: Seq<u8>| fh_and_attrs(s),
                                    ),
                            ),
                    ),
            ),
    )
}

pub fn decode_create_response(buf: Bytes) -> (result: Result<(Bytes, Bytes)>)
    ensures
        pair_as(result, create_response(contents(buf))),
{
    let mut ops = take_counted(buf, "CREATE", 4)?;
    expect_op(&mut ops, OP_PUTFH, "PUTFH")?;
    expect_op(&mut ops, OP_CREATE, "CREATE")?;
    if remaining(&ops) < 20 {
        return Err(xdr_error("CREATE change_info truncated"));
    }
    advance(&mut ops, 20);
    skip_bitmap(&mut ops, "CREATE attrset")?;
    take_fh_and_attrs(ops)
}

/// A result that has to hold at least `count` bytes.
pub open spec fn holding(parsed: Parsed<()>, count: nat, text: Seq<char>) -> Decoded<()> {
    chain(
        parsed,
        |ok: (), s: Seq<u8>|
            if s.len() < count {
                Err::<(), ErrorView>(ErrorView::Xdr(text))
            } else {
                Ok(())
            },
    )
}

pub fn decode_remove_response(buf: Bytes) -> (result: Result<()>)
    ensures
        done_as(
            result,
            holding(
                putfh_and(contents(buf), OP_REMOVE, "REMOVE"@),
                20,
                "REMOVE change_info truncated"@,
            ),
        ),
{
    let ops = take_putfh_and(buf, OP_REMOVE, "REMOVE")?;
    if remaining(&ops) < 20 {
        return Err(xdr_error("REMOVE change_info truncated"));
    }
    Ok(())
}

/// The target that READLINK returns.
pub open spec fn readlink_response(s: Seq<u8>) -> Decoded<Seq<char>> {
    chain(
        putfh_and(s, OP_READLINK, "READLINK"@),
        |ok: (), s: Seq<u8>|
            chain(
                opaque_item(s, "READLINK target"@),
                |link: Seq<u8>, s: Seq<u8>|
                    if valid_utf8(link) {
                        Ok::<Seq<char>, ErrorView>(decode_utf8(link))
                    } else {
                        Err(
                            ErrorView::Xdr(
                                "READLINK target is not UTF-8: "@ + utf8_error_text(link),
                            ),
                        )
                    },
            ),
    )
}

pub fn decode_readlink_response(buf: Bytes) -> (target: Result<String>)
    ensures
        match readlink_response(contents(buf)) {
            Ok(expected) => target is Ok && target->Ok_0@ == expected,
            Err(error) => target is Err && target->Err_0@ == error,
        },
{
    let mut ops = take_putfh_and(buf, OP_READLINK, "READLINK")?;
    let link = take_opaque(&mut ops, "READLINK target")?;
    match utf8_text(vstd::slice::slice_to_vec(as_slice(&link))) {
        Ok(target) => Ok(target),
        Err(error) => Err(
            NfsError::Xdr(concat2("READLINK target is not UTF-8: ", error.as_str())),
        ),
    }
}

/// The directory page, from its verifier on.
pub fn decode_readdir_response(buf: Bytes) -> (page: Result<Bytes>)
    ensures
        at_rest(page, putfh_and(contents(buf), OP_READDIR, "READDIR"@)),
{
    take_putfh_and(buf, OP_READDIR, "READDIR")
}

pub fn decode_rename_response(buf: Bytes) -> (result: Result<()>)
    ensures
        done_as(
            result,
            holding(
                saved_and(contents(buf), OP_RENAME, "RENAME"@),
                40,
                "RENAME change_info truncated"@,
            ),
        ),
{
    let ops = take_saved_and(buf, OP_RENAME, "RENAME")?;
    if remaining(&ops) < 40 {
        return Err(xdr_error("RENAME change_info truncated"));
    }
    Ok(())
}

pub fn decode_link_response(buf: Bytes) -> (result: Result<()>)
    ensures
        done_as(
            result,
            holding(
                saved_and(contents(buf), OP_LINK, "LINK"@),
                20,
                "LINK change_info truncated"@,
            ),
        ),
{
    let ops = take_saved_and(buf, OP_LINK, "LINK")?;
    if remaining(&ops) < 20 {
        return Err(xdr_error("LINK change_info truncated"));
    }
    Ok(())
}

/// The conflicting lock that a denied LOCK, LOCKT or LOCKU reports.
pub open spec fn denied_range(s: Seq<u8>, name: Seq<char>) -> ErrorView {
    if s.len() < 28 {
        ErrorView::Xdr(name + " denied range truncated"@)
    } else {
        match opaque_item(s.skip(28), name + " denied owner"@) {
            Err(error) => error,
            Ok((owner, _)) => if owner.len() > MAX_LOCK_OWNER_LEN {
                ErrorView::Xdr(
                    name + " denied owner exceeds "@ + decimal(MAX_LOCK_OWNER_LEN as nat)
                        + " bytes"@,
                )
            } else {
                ErrorView::LockDenied {
                    lock_type: word(s.skip(16)),
                    offset: hyper(s),
                    length: hyper(s.skip(8)),
                    owner,
                }
            },
        }
    }
}

/// The results of a denied request behind their number.
pub open spec fn denied_ops(s: Seq<u8>, opcode: u32, name: Seq<char>) -> Decoded<()> {
    chain(
        op_head(s, OP_PUTFH, "PUTFH"@),
        |ok: (), s: Seq<u8>|
            chain(
                word_item(s, name + " opcode"@),
                |actual: u32, s: Seq<u8>|
                    if actual != opcode {
                        Err::<(), ErrorView>(
                            ErrorView::Xdr(
                                "expected "@ + name + " opcode "@ + decimal(opcode as nat)
                                    + ", got "@ + decimal(actual as nat),
                            ),
                        )
                    } else {
                        chain(
                            word_item(s, name + " status"@),
                            |status: u32, s: Seq<u8>|
                                if status != NFS4ERR_DENIED {
                                    Err::<(), ErrorView>(
                                        ErrorView::Xdr(
                                            name + " status "@ + decimal(status as nat)
                                                + " does not match denied COMPOUND status"@,
                                        ),
                                    )
                                } else {
                                    Err(denied_range(s, name))
                                },
                        )
                    },
            ),
    )
}

/// The conflict that a denied request reports. A request that was not denied passes.
pub open spec fn lock_denied(s: Seq<u8>, opcode: u32, name: Seq<char>) -> Decoded<()> {
    chain(
        word_item(s, "COMPOUND status"@),
        |overall: u32, s: Seq<u8>|
            if overall != NFS4ERR_DENIED {
                Ok::<(), ErrorView>(())
            } else {
                chain(
                    opaque_item(s, "COMPOUND tag"@),
                    |tag: Seq<u8>, s: Seq<u8>|
                        chain(
                            word_item(s, "COMPOUND result count"@),
                            |count: u32, s: Seq<u8>|
                                if count != 2 {
                                    Err::<(), ErrorView>(
                                        ErrorView::Xdr(
                                            name + " denied response has "@ + decimal(
                                                count as nat,
                                            ) + " operations, expected 2"@,
                                        ),
                                    )
                                } else {
                                    denied_ops(s, opcode, name)
                                },
                        ),
                )
            },
    )
}

fn take_denied_range(buf: Bytes, name: &str) -> (error: NfsError)
    ensures
        error@ == denied_range(contents(buf), name@),
{
    let mut buf = buf;
    let ghost s = contents(buf);
    if remaining(&buf) < 28 {
        return NfsError::Xdr(concat2(name, " denied range truncated"));
    }
    let offset: u64 = get_u64(&mut buf);
    let length: u64 = get_u64(&mut buf);
    let lock_type: u32 = get_u32(&mut buf);
    // clientid of the conflicting owner
    advance(&mut buf, 8);
    assert(s.skip(8).skip(8) =~= s.skip(16));
    assert(s.skip(16).skip(4) =~= s.skip(20));
    assert(s.skip(20).skip(8) =~= s.skip(28));
    match take_opaque(&mut buf, concat2(name, " denied owner").as_str()) {
        Err(error) => error,
        Ok(owner) => {
            if remaining(&owner) > MAX_LOCK_OWNER_LEN {
                let mut text = concat2(name, " denied owner exceeds ");
                push_decimal(&mut text, MAX_LOCK_OWNER_LEN as u64);
                text.append(" bytes");
                return NfsError::Xdr(text);
            }
            NfsError::LockDenied { lock_type, offset, length, owner }
        },
    }
}

fn decode_lock_denied_result(buf: Bytes, opcode: u32, name: &str) -> (result: Result<()>)
    ensures
        done_as(result, lock_denied(contents(buf), opcode, name@)),
{
    let mut buf = buf;
    let overall: u32 = take_u32(&mut buf, "COMPOUND status")?;
    if overall != NFS4ERR_DENIED {
        return Ok(());
    }
    let _ = take_opaque(&mut buf, "COMPOUND tag")?;
    let count: u32 = take_u32(&mut buf, "COMPOUND result count")?;
    if count != 2 {
        let mut text = concat2(name, " denied response has ");
        push_decimal(&mut text, count as u64);
        text.append(" operations, expected 2");
        return Err(NfsError::Xdr(text));
    }
    expect_op(&mut buf, OP_PUTFH, "PUTFH")?;
    let actual: u32 = take_u32(&mut buf, concat2(name, " opcode").as_str())?;
    if actual != opcode {
        let mut text = concat2("expected ", name);
        text.append(" opcode ");
        push_decimal(&mut text, opcode as u64);
        text.append(", got ");
        push_decimal(&mut text, actual as u64);
        return Err(NfsError::Xdr(text));
    }
    let status: u32 = take_u32(&mut buf, concat2(name, " status").as_str())?;
    if status != NFS4ERR_DENIED {
        let mut text = concat2(name, " status ");
        push_decimal(&mut text, status as u64);
        text.append(" does not match denied COMPOUND status");
        return Err(NfsError::Xdr(text));
    }
    Err(take_denied_range(buf, name))
}

/// The state that an operation behind PUTFH returns.
pub open spec fn stateid_response(s: Seq<u8>, opcode: u32, name: Seq<char>) -> Decoded<Seq<u8>> {
    chain(
        putfh_and(s, opcode, name),
        |ok: (), s: Seq<u8>|
            chain(
                stateid_item(s, name),
                |stateid: Seq<u8>, s: Seq<u8>| Ok::<Seq<u8>, ErrorView>(stateid),
            ),
    )
}

/// The state that LOCK or LOCKU returns, or the conflict that it reports.
pub open spec fn lock_response(s: Seq<u8>, opcode: u32, name: Seq<char>) -> Decoded<Seq<u8>> {
    match lock_denied(s, opcode, name) {
        Err(error) => Err(error),
        Ok(_) => stateid_response(s, opcode, name),
    }
}

/// Whether an array was read as expected.
pub open spec fn array_as<const N: usize>(result: Result<[u8; N]>, expected: Decoded<Seq<u8>>) -> bool {
    match expected {
        Ok(bytes) => result is Ok && result->Ok_0@ == bytes,
        Err(error) => result is Err && result->Err_0@ == error,
    }
}

pub fn decode_stateid_response(buf: Bytes, opcode: u32, name: &str) -> (stateid: Result<[u8; 16]>)
    ensures
        array_as(stateid, stateid_response(contents(buf), opcode, name@)),
{
    let mut buf = take_putfh_and(buf, opcode, name)?;
    take_stateid(&mut buf, name)
}

pub fn decode_lock_response(buf: Bytes, opcode: u32, name: &str) -> (stateid: Result<[u8; 16]>)
    ensures
        array_as(stateid, lock_response(contents(buf), opcode, name@)),
{
    decode_lock_denied_result(duplicate(&buf), opcode, name)?;
    decode_stateid_response(buf, opcode, name)
}

/// What LOCKT returns: nothing, or the conflict that it reports.
pub open spec fn lockt_response(s: Seq<u8>) -> Decoded<((), Seq<u8>)> {
    match lock_denied(s, OP_LOCKT, "LOCKT"@) {
        Err(error) => Err(error),
        Ok(_) => putfh_and(s, OP_LOCKT, "LOCKT"@),
    }
}

pub fn decode_lockt_response(buf: Bytes) -> (result: Result<()>)
    ensures
        done_as(result, lockt_response(contents(buf))),
{
    decode_lock_denied_result(duplicate(&buf), OP_LOCKT, "LOCKT")?;
    let _ = take_putfh_and(buf, OP_LOCKT, "LOCKT")?;
    Ok(())
}

/// The result of a single operation without data.
pub open spec fn single_response(s: Seq<u8>, opcode: u32, name: Seq<char>) -> Decoded<((), Seq<u8>)> {
    chain(counted(s, name, 1), |ok: (), s: Seq<u8>| op_head(s, opcode, name))
}

pub fn decode_release_lockowner_response(buf: Bytes) -> (result: Result<()>)
    ensures
        done_as(
            result,
            single_response(contents(buf), OP_RELEASE_LOCKOWNER, "RELEASE_LOCKOWNER"@),
        ),
{
    let mut ops = take_counted(buf, "RELEASE_LOCKOWNER", 1)?;
    expect_op(&mut ops, OP_RELEASE_LOCKOWNER, "RELEASE_LOCKOWNER")
}

pub fn decode_renew_response(buf: Bytes) -> (result: Result<()>)
    ensures
        done_as(result, single_response(contents(buf), OP_RENEW, "RENEW"@)),
{
    let mut ops = take_counted(buf, "RENEW", 1)?;
    expect_op(&mut ops, OP_RENEW, "RENEW")
}

pub fn decode_delegreturn_response(buf: Bytes) -> (result: Result<()>)
    ensures
        done_as(result, putfh_and(contents(buf), OP_DELEGRETURN, "DELEGRETURN"@)),
{
    let _ = take_putfh_and(buf, OP_DELEGRETURN, "DELEGRETURN")?;
    Ok(())
}

/// The data that READ returns.
pub open spec fn read_response(s: Seq<u8>) -> Decoded<(Seq<u8>, Seq<u8>)> {
    chain(
        putfh_and(s, OP_READ, "READ"@),
        |ok: (), s: Seq<u8>|
            chain(word_item(s, "READ eof"@), |eof: u32, s: Seq<u8>| opaque_item(s, "READ data"@)),
    )
}

pub fn decode_read_response(buf: Bytes) -> (data: Result<Bytes>)
    ensures
        match read_response(contents(buf)) {
            Ok((expected, _)) => data is Ok && contents(data->Ok_0) == expected,
            Err(error) => data is Err && data->Err_0@ == error,
        },
{
    let mut buf = take_putfh_and(buf, OP_READ, "READ")?;
    let _ = take_u32(&mut buf, "READ eof")?;
    take_opaque(&mut buf, "READ data")
}

/// What WRITE returns: the number of bytes written, how stable they are, and the verifier.
pub open spec fn write_response(s: Seq<u8>) -> Decoded<(u32, u32, Seq<u8>)> {
    chain(
        putfh_and(s, OP_WRITE, "WRITE"@),
        |ok: (), s: Seq<u8>|
            chain(
                word_item(s, "WRITE count"@),
                |count: u32, s: Seq<u8>|
                    chain(
                        word_item(s, "WRITE committed"@),
                        |committed: u32, s: Seq<u8>|
                            if committed > 2 {
                                Err::<(u32, u32, Seq<u8>), ErrorView>(
                                    ErrorView::Xdr(
                                        "WRITE committed value "@ + decimal(committed as nat)
                                            + " is outside stable_how4"@,
                                    ),
                                )
                            } else {
                                chain(
                                    fixed_item(s, 8, "WRITE verifier truncated"@),
                                    |verifier: Seq<u8>, s: Seq<u8>|
                                        Ok::<(u32, u32, Seq<u8>), ErrorView>(
                                            (count, committed, verifier),
                                        ),
                                )
                            },
                    ),
            ),
    )
}

pub fn decode_write_response(buf: Bytes) -> (result: Result<(u32, u32, [u8; 8])>)
    ensures
        match write_response(contents(buf)) {
            Ok((count, committed, verifier)) => result is Ok && result->Ok_0.0 == count
                && result->Ok_0.1 == committed && result->Ok_0.2@ == verifier,
            Err(error) => result is Err && result->Err_0@ == error,
        },
{
    let mut buf = take_putfh_and(buf, OP_WRITE, "WRITE")?;
    let count: u32 = take_u32(&mut buf, "WRITE count")?;
    let committed: u32 = take_u32(&mut buf, "WRITE committed")?;
    if committed > 2 {
        let mut text = with_number("WRITE committed value ", committed as u64);
        text.append(" is outside stable_how4");
        return Err(NfsError::Xdr(text));
    }
    if remaining(&buf) < 8 {
        return Err(xdr_error("WRITE verifier truncated"));
    }
    let verifier: [u8; 8] = take_array(&mut buf);
    Ok((count, committed, verifier))
}

/// The verifier that COMMIT returns.
pub open spec fn commit_response(s: Seq<u8>) -> Decoded<Seq<u8>> {
    chain(
        putfh_and(s, OP_COMMIT, "COMMIT"@),
        |ok: (), s: Seq<u8>|
            chain(
                fixed_item(s, 8, "COMMIT verifier truncated"@),
                |verifier: Seq<u8>, s: Seq<u8>| Ok::<Seq<u8>, ErrorView>(verifier),
            ),
    )
}

pub fn decode_commit_response(buf: Bytes) -> (verifier: Result<[u8; 8]>)
    ensures
        array_as(verifier, commit_response(contents(buf))),
{
    let mut buf = take_putfh_and(buf, OP_COMMIT, "COMMIT")?;
    if remaining(&buf) < 8 {
        return Err(xdr_error("COMMIT verifier truncated"));
    }
    let verifier: [u8; 8] = take_array(&mut buf);
    Ok(verifier)
}

} // verus!
