//! The status codes of NFSv4 (`nfsstat4`).

use vstd::prelude::*;
use vstd::string::StringExecFns;

use crate::error::bad_status;
use crate::error::ErrorView;

verus! {

/// A status that a server or a callback reports.
#[derive(Clone, Copy, Debug, PartialEq, Eq, Structural)]
#[allow(non_camel_case_types)]
pub enum Nfs4ErrorCode {
    NFS4_OK,
    NFS4ERR_PERM,
    NFS4ERR_NOENT,
    NFS4ERR_IO,
    NFS4ERR_NXIO,
    NFS4ERR_ACCESS,
    NFS4ERR_EXIST,
    NFS4ERR_XDEV,
    NFS4ERR_NOTDIR,
    NFS4ERR_ISDIR,
    NFS4ERR_INVAL,
    NFS4ERR_FBIG,
    NFS4ERR_NOSPC,
    NFS4ERR_ROFS,
    NFS4ERR_MLINK,
    NFS4ERR_NAMETOOLONG,
    NFS4ERR_NOTEMPTY,
    NFS4ERR_DQUOT,
    NFS4ERR_STALE,
    NFS4ERR_BADHANDLE,
    NFS4ERR_BAD_COOKIE,
    NFS4ERR_NOTSUPP,
    NFS4ERR_TOOSMALL,
    NFS4ERR_SERVERFAULT,
    NFS4ERR_BADTYPE,
    NFS4ERR_DELAY,
    NFS4ERR_SAME,
    NFS4ERR_DENIED,
    NFS4ERR_EXPIRED,
    NFS4ERR_LOCKED,
    NFS4ERR_GRACE,
    NFS4ERR_FHEXPIRED,
    NFS4ERR_SHARE_DENIED,
    NFS4ERR_WRONGSEC,
    NFS4ERR_CLID_INUSE,
    NFS4ERR_RESOURCE,
    NFS4ERR_MOVED,
    NFS4ERR_NOFILEHANDLE,
    NFS4ERR_MINOR_VERS_MISMATCH,
    NFS4ERR_STALE_CLIENTID,
    NFS4ERR_STALE_STATEID,
    NFS4ERR_OLD_STATEID,
    NFS4ERR_BAD_STATEID,
    NFS4ERR_BAD_SEQID,
    NFS4ERR_NOT_SAME,
    NFS4ERR_LOCK_RANGE,
    NFS4ERR_SYMLINK,
    NFS4ERR_RESTOREFH,
    NFS4ERR_LEASE_MOVED,
    NFS4ERR_ATTRNOTSUPP,
    NFS4ERR_NO_GRACE,
    NFS4ERR_RECLAIM_BAD,
    NFS4ERR_RECLAIM_CONFLICT,
    NFS4ERR_BADXDR,
    NFS4ERR_LOCKS_HELD,
    NFS4ERR_OPENMODE,
    NFS4ERR_BADOWNER,
    NFS4ERR_BADCHAR,
    NFS4ERR_BADNAME,
    NFS4ERR_BAD_RANGE,
    NFS4ERR_LOCK_NOTSUPP,
    NFS4ERR_OP_ILLEGAL,
    NFS4ERR_DEADLOCK,
    NFS4ERR_FILE_OPEN,
    NFS4ERR_ADMIN_REVOKED,
    NFS4ERR_CB_PATH_DOWN,
    NFS4ERR_BADIOMODE,
    NFS4ERR_BADLAYOUT,
    NFS4ERR_BAD_SESSION_DIGEST,
    NFS4ERR_BADSESSION,
    NFS4ERR_BADSLOT,
    NFS4ERR_COMPLETE_ALREADY,
    NFS4ERR_CONN_NOT_BOUND_TO_SESSION,
    NFS4ERR_DELEG_ALREADY_WANTED,
    NFS4ERR_BACK_CHAN_BUSY,
    NFS4ERR_LAYOUTTRYLATER,
    NFS4ERR_LAYOUTUNAVAILABLE,
    NFS4ERR_NOMATCHING_LAYOUT,
    NFS4ERR_RECALLCONFLICT,
    NFS4ERR_UNKNOWN_LAYOUTTYPE,
    NFS4ERR_SEQ_MISORDERED,
    NFS4ERR_SEQUENCE_POS,
    NFS4ERR_REQ_TOO_BIG,
    NFS4ERR_REP_TOO_BIG,
    NFS4ERR_REP_TOO_BIG_TO_CACHE,
    NFS4ERR_RETRY_UNCACHED_REP,
    NFS4ERR_UNSAFE_COMPOUND,
    NFS4ERR_TOO_MANY_OPS,
    NFS4ERR_OP_NOT_IN_SESSION,
    NFS4ERR_HASH_ALG_UNSUPP,
    NFS4ERR_CLIENTID_BUSY,
    NFS4ERR_PNFS_IO_HOLE,
    NFS4ERR_SEQ_FALSE_RETRY,
    NFS4ERR_BAD_HIGH_SLOT,
    NFS4ERR_DEADSESSION,
    NFS4ERR_ENCR_ALG_UNSUPP,
    NFS4ERR_PNFS_NO_LAYOUT,
    NFS4ERR_NOT_ONLY_OP,
    NFS4ERR_WRONG_CRED,
    NFS4ERR_WRONG_TYPE,
    NFS4ERR_DIRDELEG_UNAVAIL,
    NFS4ERR_REJECT_DELEG,
    NFS4ERR_RETURNCONFLICT,
    NFS4ERR_DELEG_REVOKED,
}

/// The number of a status on the wire.
pub open spec fn status_code(status: Nfs4ErrorCode) -> u32 {
    match status {
        Nfs4ErrorCode::NFS4_OK => 0,
        Nfs4ErrorCode::NFS4ERR_PERM => 1,
        Nfs4ErrorCode::NFS4ERR_NOENT => 2,
        Nfs4ErrorCode::NFS4ERR_IO => 5,
        Nfs4ErrorCode::NFS4ERR_NXIO => 6,
        Nfs4ErrorCode::NFS4ERR_ACCESS => 13,
        Nfs4ErrorCode::NFS4ERR_EXIST => 17,
        Nfs4ErrorCode::NFS4ERR_XDEV => 18,
        Nfs4ErrorCode::NFS4ERR_NOTDIR => 20,
        Nfs4ErrorCode::NFS4ERR_ISDIR => 21,
        Nfs4ErrorCode::NFS4ERR_INVAL => 22,
        Nfs4ErrorCode::NFS4ERR_FBIG => 27,
        Nfs4ErrorCode::NFS4ERR_NOSPC => 28,
        Nfs4ErrorCode::NFS4ERR_ROFS => 30,
        Nfs4ErrorCode::NFS4ERR_MLINK => 31,
        Nfs4ErrorCode::NFS4ERR_NAMETOOLONG => 63,
        Nfs4ErrorCode::NFS4ERR_NOTEMPTY => 66,
        Nfs4ErrorCode::NFS4ERR_DQUOT => 69,
        Nfs4ErrorCode::NFS4ERR_STALE => 70,
        Nfs4ErrorCode::NFS4ERR_BADHANDLE => 10001,
        Nfs4ErrorCode::NFS4ERR_BAD_COOKIE => 10003,
        Nfs4ErrorCode::NFS4ERR_NOTSUPP => 10004,
        Nfs4ErrorCode::NFS4ERR_TOOSMALL => 10005,
        Nfs4ErrorCode::NFS4ERR_SERVERFAULT => 10006,
        Nfs4ErrorCode::NFS4ERR_BADTYPE => 10007,
        Nfs4ErrorCode::NFS4ERR_DELAY => 10008,
        Nfs4ErrorCode::NFS4ERR_SAME => 10009,
        Nfs4ErrorCode::NFS4ERR_DENIED => 10010,
        Nfs4ErrorCode::NFS4ERR_EXPIRED => 10011,
        Nfs4ErrorCode::NFS4ERR_LOCKED => 10012,
        Nfs4ErrorCode::NFS4ERR_GRACE => 10013,
        Nfs4ErrorCode::NFS4ERR_FHEXPIRED => 10014,
        Nfs4ErrorCode::NFS4ERR_SHARE_DENIED => 10015,
        Nfs4ErrorCode::NFS4ERR_WRONGSEC => 10016,
        Nfs4ErrorCode::NFS4ERR_CLID_INUSE => 10017,
        Nfs4ErrorCode::NFS4ERR_RESOURCE => 10018,
        Nfs4ErrorCode::NFS4ERR_MOVED => 10019,
        Nfs4ErrorCode::NFS4ERR_NOFILEHANDLE => 10020,
        Nfs4ErrorCode::NFS4ERR_MINOR_VERS_MISMATCH => 10021,
        Nfs4ErrorCode::NFS4ERR_STALE_CLIENTID => 10022,
        Nfs4ErrorCode::NFS4ERR_STALE_STATEID => 10023,
        Nfs4ErrorCode::NFS4ERR_OLD_STATEID => 10024,
        Nfs4ErrorCode::NFS4ERR_BAD_STATEID => 10025,
        Nfs4ErrorCode::NFS4ERR_BAD_SEQID => 10026,
        Nfs4ErrorCode::NFS4ERR_NOT_SAME => 10027,
        Nfs4ErrorCode::NFS4ERR_LOCK_RANGE => 10028,
        Nfs4ErrorCode::NFS4ERR_SYMLINK => 10029,
        Nfs4ErrorCode::NFS4ERR_RESTOREFH => 10030,
        Nfs4ErrorCode::NFS4ERR_LEASE_MOVED => 10031,
        Nfs4ErrorCode::NFS4ERR_ATTRNOTSUPP => 10032,
        Nfs4ErrorCode::NFS4ERR_NO_GRACE => 10033,
        Nfs4ErrorCode::NFS4ERR_RECLAIM_BAD => 10034,
        Nfs4ErrorCode::NFS4ERR_RECLAIM_CONFLICT => 10035,
        Nfs4ErrorCode::NFS4ERR_BADXDR => 10036,
        Nfs4ErrorCode::NFS4ERR_LOCKS_HELD => 10037,
        Nfs4ErrorCode::NFS4ERR_OPENMODE => 10038,
        Nfs4ErrorCode::NFS4ERR_BADOWNER => 10039,
        Nfs4ErrorCode::NFS4ERR_BADCHAR => 10040,
        Nfs4ErrorCode::NFS4ERR_BADNAME => 10041,
        Nfs4ErrorCode::NFS4ERR_BAD_RANGE => 10042,
        Nfs4ErrorCode::NFS4ERR_LOCK_NOTSUPP => 10043,
        Nfs4ErrorCode::NFS4ERR_OP_ILLEGAL => 10044,
        Nfs4ErrorCode::NFS4ERR_DEADLOCK => 10045,
        Nfs4ErrorCode::NFS4ERR_FILE_OPEN => 10046,
        Nfs4ErrorCode::NFS4ERR_ADMIN_REVOKED => 10047,
        Nfs4ErrorCode::NFS4ERR_CB_PATH_DOWN => 10048,
        Nfs4ErrorCode::NFS4ERR_BADIOMODE => 10049,
        Nfs4ErrorCode::NFS4ERR_BADLAYOUT => 10050,
        Nfs4ErrorCode::NFS4ERR_BAD_SESSION_DIGEST => 10051,
        Nfs4ErrorCode::NFS4ERR_BADSESSION => 10052,
        Nfs4ErrorCode::NFS4ERR_BADSLOT => 10053,
        Nfs4ErrorCode::NFS4ERR_COMPLETE_ALREADY => 10054,
        Nfs4ErrorCode::NFS4ERR_CONN_NOT_BOUND_TO_SESSION => 10055,
        Nfs4ErrorCode::NFS4ERR_DELEG_ALREADY_WANTED => 10056,
        Nfs4ErrorCode::NFS4ERR_BACK_CHAN_BUSY => 10057,
        Nfs4ErrorCode::NFS4ERR_LAYOUTTRYLATER => 10058,
        Nfs4ErrorCode::NFS4ERR_LAYOUTUNAVAILABLE => 10059,
        Nfs4ErrorCode::NFS4ERR_NOMATCHING_LAYOUT => 10060,
        Nfs4ErrorCode::NFS4ERR_RECALLCONFLICT => 10061,
        Nfs4ErrorCode::NFS4ERR_UNKNOWN_LAYOUTTYPE => 10062,
        Nfs4ErrorCode::NFS4ERR_SEQ_MISORDERED => 10063,
        Nfs4ErrorCode::NFS4ERR_SEQUENCE_POS => 10064,
        Nfs4ErrorCode::NFS4ERR_REQ_TOO_BIG => 10065,
        Nfs4ErrorCode::NFS4ERR_REP_TOO_BIG => 10066,
        Nfs4ErrorCode::NFS4ERR_REP_TOO_BIG_TO_CACHE => 10067,
        Nfs4ErrorCode::NFS4ERR_RETRY_UNCACHED_REP => 10068,
        Nfs4ErrorCode::NFS4ERR_UNSAFE_COMPOUND => 10069,
        Nfs4ErrorCode::NFS4ERR_TOO_MANY_OPS => 10070,
        Nfs4ErrorCode::NFS4ERR_OP_NOT_IN_SESSION => 10071,
        Nfs4ErrorCode::NFS4ERR_HASH_ALG_UNSUPP => 10072,
        Nfs4ErrorCode::NFS4ERR_CLIENTID_BUSY => 10074,
        Nfs4ErrorCode::NFS4ERR_PNFS_IO_HOLE => 10075,
        Nfs4ErrorCode::NFS4ERR_SEQ_FALSE_RETRY => 10076,
        Nfs4ErrorCode::NFS4ERR_BAD_HIGH_SLOT => 10077,
        Nfs4ErrorCode::NFS4ERR_DEADSESSION => 10078,
        Nfs4ErrorCode::NFS4ERR_ENCR_ALG_UNSUPP => 10079,
        Nfs4ErrorCode::NFS4ERR_PNFS_NO_LAYOUT => 10080,
        Nfs4ErrorCode::NFS4ERR_NOT_ONLY_OP => 10081,
        Nfs4ErrorCode::NFS4ERR_WRONG_CRED => 10082,
        Nfs4ErrorCode::NFS4ERR_WRONG_TYPE => 10083,
        Nfs4ErrorCode::NFS4ERR_DIRDELEG_UNAVAIL => 10084,
        Nfs4ErrorCode::NFS4ERR_REJECT_DELEG => 10085,
        Nfs4ErrorCode::NFS4ERR_RETURNCONFLICT => 10086,
        Nfs4ErrorCode::NFS4ERR_DELEG_REVOKED => 10087,
    }
}

/// What a status says in words.
pub open spec fn status_text(status: Nfs4ErrorCode) -> Seq<char> {
    match status {
        Nfs4ErrorCode::NFS4_OK => "call completed successfully"@,
        Nfs4ErrorCode::NFS4ERR_PERM => "permission denied"@,
        Nfs4ErrorCode::NFS4ERR_NOENT => "no such file or directory"@,
        Nfs4ErrorCode::NFS4ERR_IO => "i/o error"@,
        Nfs4ErrorCode::NFS4ERR_NXIO => "no such device or address"@,
        Nfs4ErrorCode::NFS4ERR_ACCESS => "access denied"@,
        Nfs4ErrorCode::NFS4ERR_EXIST => "file exists"@,
        Nfs4ErrorCode::NFS4ERR_XDEV => "cross-device link"@,
        Nfs4ErrorCode::NFS4ERR_NOTDIR => "not a directory"@,
        Nfs4ErrorCode::NFS4ERR_ISDIR => "is a directory"@,
        Nfs4ErrorCode::NFS4ERR_INVAL => "invalid argument"@,
        Nfs4ErrorCode::NFS4ERR_FBIG => "file too large"@,
        Nfs4ErrorCode::NFS4ERR_NOSPC => "no space left on device"@,
        Nfs4ErrorCode::NFS4ERR_ROFS => "read-only file system"@,
        Nfs4ErrorCode::NFS4ERR_MLINK => "too many links"@,
        Nfs4ErrorCode::NFS4ERR_NAMETOOLONG => "file name too long"@,
        Nfs4ErrorCode::NFS4ERR_NOTEMPTY => "directory not empty"@,
        Nfs4ErrorCode::NFS4ERR_DQUOT => "quota exceeded"@,
        Nfs4ErrorCode::NFS4ERR_STALE => "stale file handle"@,
        Nfs4ErrorCode::NFS4ERR_BADHANDLE => "bad file handle"@,
        Nfs4ErrorCode::NFS4ERR_BAD_COOKIE => "bad cookie"@,
        Nfs4ErrorCode::NFS4ERR_NOTSUPP => "operation not supported"@,
        Nfs4ErrorCode::NFS4ERR_TOOSMALL => "buffer too small"@,
        Nfs4ErrorCode::NFS4ERR_SERVERFAULT => "server fault"@,
        Nfs4ErrorCode::NFS4ERR_BADTYPE => "bad type"@,
        Nfs4ErrorCode::NFS4ERR_DELAY => "server busy, retry later"@,
        Nfs4ErrorCode::NFS4ERR_SAME => "attributes are the same"@,
        Nfs4ErrorCode::NFS4ERR_DENIED => "lock denied"@,
        Nfs4ErrorCode::NFS4ERR_EXPIRED => "lock/stateid expired"@,
        Nfs4ErrorCode::NFS4ERR_LOCKED => "file locked"@,
        Nfs4ErrorCode::NFS4ERR_GRACE => "server in grace period"@,
        Nfs4ErrorCode::NFS4ERR_FHEXPIRED => "file handle expired"@,
        Nfs4ErrorCode::NFS4ERR_SHARE_DENIED => "share reservation denied"@,
        Nfs4ErrorCode::NFS4ERR_WRONGSEC => "wrong security flavor"@,
        Nfs4ErrorCode::NFS4ERR_CLID_INUSE => "client ID in use"@,
        Nfs4ErrorCode::NFS4ERR_RESOURCE => "resource exhausted"@,
        Nfs4ErrorCode::NFS4ERR_MOVED => "file system moved"@,
        Nfs4ErrorCode::NFS4ERR_NOFILEHANDLE => "no current file handle"@,
        Nfs4ErrorCode::NFS4ERR_MINOR_VERS_MISMATCH => "minor version mismatch"@,
        Nfs4ErrorCode::NFS4ERR_STALE_CLIENTID => "stale client ID"@,
        Nfs4ErrorCode::NFS4ERR_STALE_STATEID => "stale state ID"@,
        Nfs4ErrorCode::NFS4ERR_OLD_STATEID => "old state ID"@,
        Nfs4ErrorCode::NFS4ERR_BAD_STATEID => "bad state ID"@,
        Nfs4ErrorCode::NFS4ERR_BAD_SEQID => "bad sequence ID"@,
        Nfs4ErrorCode::NFS4ERR_NOT_SAME => "attributes are not the same"@,
        Nfs4ErrorCode::NFS4ERR_LOCK_RANGE => "lock range not supported"@,
        Nfs4ErrorCode::NFS4ERR_SYMLINK => "is a symbolic link"@,
        Nfs4ErrorCode::NFS4ERR_RESTOREFH => "no saved file handle"@,
        Nfs4ErrorCode::NFS4ERR_LEASE_MOVED => "lease moved"@,
        Nfs4ErrorCode::NFS4ERR_ATTRNOTSUPP => "attribute not supported"@,
        Nfs4ErrorCode::NFS4ERR_NO_GRACE => "no grace period"@,
        Nfs4ErrorCode::NFS4ERR_RECLAIM_BAD => "bad reclaim"@,
        Nfs4ErrorCode::NFS4ERR_RECLAIM_CONFLICT => "reclaim conflict"@,
        Nfs4ErrorCode::NFS4ERR_BADXDR => "bad XDR"@,
        Nfs4ErrorCode::NFS4ERR_LOCKS_HELD => "locks held"@,
        Nfs4ErrorCode::NFS4ERR_OPENMODE => "open mode conflict"@,
        Nfs4ErrorCode::NFS4ERR_BADOWNER => "bad owner"@,
        Nfs4ErrorCode::NFS4ERR_BADCHAR => "bad character"@,
        Nfs4ErrorCode::NFS4ERR_BADNAME => "bad name"@,
        Nfs4ErrorCode::NFS4ERR_BAD_RANGE => "bad range"@,
        Nfs4ErrorCode::NFS4ERR_LOCK_NOTSUPP => "lock not supported"@,
        Nfs4ErrorCode::NFS4ERR_OP_ILLEGAL => "illegal operation"@,
        Nfs4ErrorCode::NFS4ERR_DEADLOCK => "deadlock"@,
        Nfs4ErrorCode::NFS4ERR_FILE_OPEN => "file open"@,
        Nfs4ErrorCode::NFS4ERR_ADMIN_REVOKED => "revoked by administrator"@,
        Nfs4ErrorCode::NFS4ERR_CB_PATH_DOWN => "callback path down"@,
        Nfs4ErrorCode::NFS4ERR_BADIOMODE => "bad I/O mode"@,
        Nfs4ErrorCode::NFS4ERR_BADLAYOUT => "bad layout"@,
        Nfs4ErrorCode::NFS4ERR_BAD_SESSION_DIGEST => "bad session digest"@,
        Nfs4ErrorCode::NFS4ERR_BADSESSION => "bad session"@,
        Nfs4ErrorCode::NFS4ERR_BADSLOT => "bad slot"@,
        Nfs4ErrorCode::NFS4ERR_COMPLETE_ALREADY => "reclaim already complete"@,
        Nfs4ErrorCode::NFS4ERR_CONN_NOT_BOUND_TO_SESSION => "connection not bound to session"@,
        Nfs4ErrorCode::NFS4ERR_DELEG_ALREADY_WANTED => "delegation already wanted"@,
        Nfs4ErrorCode::NFS4ERR_BACK_CHAN_BUSY => "back channel busy"@,
        Nfs4ErrorCode::NFS4ERR_LAYOUTTRYLATER => "layout try later"@,
        Nfs4ErrorCode::NFS4ERR_LAYOUTUNAVAILABLE => "layout unavailable"@,
        Nfs4ErrorCode::NFS4ERR_NOMATCHING_LAYOUT => "no matching layout"@,
        Nfs4ErrorCode::NFS4ERR_RECALLCONFLICT => "recall conflict"@,
        Nfs4ErrorCode::NFS4ERR_UNKNOWN_LAYOUTTYPE => "unknown layout type"@,
        Nfs4ErrorCode::NFS4ERR_SEQ_MISORDERED => "sequence misordered"@,
        Nfs4ErrorCode::NFS4ERR_SEQUENCE_POS => "bad SEQUENCE position"@,
        Nfs4ErrorCode::NFS4ERR_REQ_TOO_BIG => "request too big"@,
        Nfs4ErrorCode::NFS4ERR_REP_TOO_BIG => "reply too big"@,
        Nfs4ErrorCode::NFS4ERR_REP_TOO_BIG_TO_CACHE => "reply too big to cache"@,
        Nfs4ErrorCode::NFS4ERR_RETRY_UNCACHED_REP => "retry of uncached reply"@,
        Nfs4ErrorCode::NFS4ERR_UNSAFE_COMPOUND => "unsafe compound"@,
        Nfs4ErrorCode::NFS4ERR_TOO_MANY_OPS => "too many operations"@,
        Nfs4ErrorCode::NFS4ERR_OP_NOT_IN_SESSION => "operation not in session"@,
        Nfs4ErrorCode::NFS4ERR_HASH_ALG_UNSUPP => "hash algorithm not supported"@,
        Nfs4ErrorCode::NFS4ERR_CLIENTID_BUSY => "client ID busy"@,
        Nfs4ErrorCode::NFS4ERR_PNFS_IO_HOLE => "pNFS I/O hole"@,
        Nfs4ErrorCode::NFS4ERR_SEQ_FALSE_RETRY => "false retry"@,
        Nfs4ErrorCode::NFS4ERR_BAD_HIGH_SLOT => "bad highest slot"@,
        Nfs4ErrorCode::NFS4ERR_DEADSESSION => "dead session"@,
        Nfs4ErrorCode::NFS4ERR_ENCR_ALG_UNSUPP => "encryption algorithm not supported"@,
        Nfs4ErrorCode::NFS4ERR_PNFS_NO_LAYOUT => "no pNFS layout"@,
        Nfs4ErrorCode::NFS4ERR_NOT_ONLY_OP => "not the only operation"@,
        Nfs4ErrorCode::NFS4ERR_WRONG_CRED => "wrong credential"@,
        Nfs4ErrorCode::NFS4ERR_WRONG_TYPE => "wrong type"@,
        Nfs4ErrorCode::NFS4ERR_DIRDELEG_UNAVAIL => "directory delegation unavailable"@,
        Nfs4ErrorCode::NFS4ERR_REJECT_DELEG => "delegation rejected"@,
        Nfs4ErrorCode::NFS4ERR_RETURNCONFLICT => "return conflict"@,
        Nfs4ErrorCode::NFS4ERR_DELEG_REVOKED => "delegation revoked"@,
    }
}

/// Whether a number stands for a status.
pub open spec fn is_status(code: u32) -> bool {
    exists|status: Nfs4ErrorCode| #[trigger] status_code(status) == code
}

/// The status that a number stands for.
pub open spec fn status_of(code: u32) -> Nfs4ErrorCode {
    choose|status: Nfs4ErrorCode| #[trigger] status_code(status) == code
}

/// Two statuses never share a number.
pub proof fn lemma_status_codes_are_distinct(a: Nfs4ErrorCode, b: Nfs4ErrorCode)
    requires
        status_code(a) == status_code(b),
    ensures
        a == b,
{
}

/// A status is the one that its own number stands for.
pub proof fn lemma_status_of_code(status: Nfs4ErrorCode)
    ensures
        is_status(status_code(status)),
        status_of(status_code(status)) == status,
{
    lemma_status_codes_are_distinct(status_of(status_code(status)), status);
}

impl Nfs4ErrorCode {
    /// The number of the status on the wire.
    pub fn code(self) -> (code: u32)
        ensures
            code == status_code(self),
    {
        match self {
            Nfs4ErrorCode::NFS4_OK => 0,
            Nfs4ErrorCode::NFS4ERR_PERM => 1,
            Nfs4ErrorCode::NFS4ERR_NOENT => 2,
            Nfs4ErrorCode::NFS4ERR_IO => 5,
            Nfs4ErrorCode::NFS4ERR_NXIO => 6,
            Nfs4ErrorCode::NFS4ERR_ACCESS => 13,
            Nfs4ErrorCode::NFS4ERR_EXIST => 17,
            Nfs4ErrorCode::NFS4ERR_XDEV => 18,
            Nfs4ErrorCode::NFS4ERR_NOTDIR => 20,
            Nfs4ErrorCode::NFS4ERR_ISDIR => 21,
            Nfs4ErrorCode::NFS4ERR_INVAL => 22,
            Nfs4ErrorCode::NFS4ERR_FBIG => 27,
            Nfs4ErrorCode::NFS4ERR_NOSPC => 28,
            Nfs4ErrorCode::NFS4ERR_ROFS => 30,
            Nfs4ErrorCode::NFS4ERR_MLINK => 31,
            Nfs4ErrorCode::NFS4ERR_NAMETOOLONG => 63,
            Nfs4ErrorCode::NFS4ERR_NOTEMPTY => 66,
            Nfs4ErrorCode::NFS4ERR_DQUOT => 69,
            Nfs4ErrorCode::NFS4ERR_STALE => 70,
            Nfs4ErrorCode::NFS4ERR_BADHANDLE => 10001,
            Nfs4ErrorCode::NFS4ERR_BAD_COOKIE => 10003,
            Nfs4ErrorCode::NFS4ERR_NOTSUPP => 10004,
            Nfs4ErrorCode::NFS4ERR_TOOSMALL => 10005,
            Nfs4ErrorCode::NFS4ERR_SERVERFAULT => 10006,
            Nfs4ErrorCode::NFS4ERR_BADTYPE => 10007,
            Nfs4ErrorCode::NFS4ERR_DELAY => 10008,
            Nfs4ErrorCode::NFS4ERR_SAME => 10009,
            Nfs4ErrorCode::NFS4ERR_DENIED => 10010,
            Nfs4ErrorCode::NFS4ERR_EXPIRED => 10011,
            Nfs4ErrorCode::NFS4ERR_LOCKED => 10012,
            Nfs4ErrorCode::NFS4ERR_GRACE => 10013,
            Nfs4ErrorCode::NFS4ERR_FHEXPIRED => 10014,
            Nfs4ErrorCode::NFS4ERR_SHARE_DENIED => 10015,
            Nfs4ErrorCode::NFS4ERR_WRONGSEC => 10016,
            Nfs4ErrorCode::NFS4ERR_CLID_INUSE => 10017,
            Nfs4ErrorCode::NFS4ERR_RESOURCE => 10018,
            Nfs4ErrorCode::NFS4ERR_MOVED => 10019,
            Nfs4ErrorCode::NFS4ERR_NOFILEHANDLE => 10020,
            Nfs4ErrorCode::NFS4ERR_MINOR_VERS_MISMATCH => 10021,
            Nfs4ErrorCode::NFS4ERR_STALE_CLIENTID => 10022,
            Nfs4ErrorCode::NFS4ERR_STALE_STATEID => 10023,
            Nfs4ErrorCode::NFS4ERR_OLD_STATEID => 10024,
            Nfs4ErrorCode::NFS4ERR_BAD_STATEID => 10025,
            Nfs4ErrorCode::NFS4ERR_BAD_SEQID => 10026,
            Nfs4ErrorCode::NFS4ERR_NOT_SAME => 10027,
            Nfs4ErrorCode::NFS4ERR_LOCK_RANGE => 10028,
            Nfs4ErrorCode::NFS4ERR_SYMLINK => 10029,
            Nfs4ErrorCode::NFS4ERR_RESTOREFH => 10030,
            Nfs4ErrorCode::NFS4ERR_LEASE_MOVED => 10031,
            Nfs4ErrorCode::NFS4ERR_ATTRNOTSUPP => 10032,
            Nfs4ErrorCode::NFS4ERR_NO_GRACE => 10033,
            Nfs4ErrorCode::NFS4ERR_RECLAIM_BAD => 10034,
            Nfs4ErrorCode::NFS4ERR_RECLAIM_CONFLICT => 10035,
            Nfs4ErrorCode::NFS4ERR_BADXDR => 10036,
            Nfs4ErrorCode::NFS4ERR_LOCKS_HELD => 10037,
            Nfs4ErrorCode::NFS4ERR_OPENMODE => 10038,
            Nfs4ErrorCode::NFS4ERR_BADOWNER => 10039,
            Nfs4ErrorCode::NFS4ERR_BADCHAR => 10040,
            Nfs4ErrorCode::NFS4ERR_BADNAME => 10041,
            Nfs4ErrorCode::NFS4ERR_BAD_RANGE => 10042,
            Nfs4ErrorCode::NFS4ERR_LOCK_NOTSUPP => 10043,
            Nfs4ErrorCode::NFS4ERR_OP_ILLEGAL => 10044,
            Nfs4ErrorCode::NFS4ERR_DEADLOCK => 10045,
            Nfs4ErrorCode::NFS4ERR_FILE_OPEN => 10046,
            Nfs4ErrorCode::NFS4ERR_ADMIN_REVOKED => 10047,
            Nfs4ErrorCode::NFS4ERR_CB_PATH_DOWN => 10048,
            Nfs4ErrorCode::NFS4ERR_BADIOMODE => 10049,
            Nfs4ErrorCode::NFS4ERR_BADLAYOUT => 10050,
            Nfs4ErrorCode::NFS4ERR_BAD_SESSION_DIGEST => 10051,
            Nfs4ErrorCode::NFS4ERR_BADSESSION => 10052,
            Nfs4ErrorCode::NFS4ERR_BADSLOT => 10053,
            Nfs4ErrorCode::NFS4ERR_COMPLETE_ALREADY => 10054,
            Nfs4ErrorCode::NFS4ERR_CONN_NOT_BOUND_TO_SESSION => 10055,
            Nfs4ErrorCode::NFS4ERR_DELEG_ALREADY_WANTED => 10056,
            Nfs4ErrorCode::NFS4ERR_BACK_CHAN_BUSY => 10057,
            Nfs4ErrorCode::NFS4ERR_LAYOUTTRYLATER => 10058,
            Nfs4ErrorCode::NFS4ERR_LAYOUTUNAVAILABLE => 10059,
            Nfs4ErrorCode::NFS4ERR_NOMATCHING_LAYOUT => 10060,
            Nfs4ErrorCode::NFS4ERR_RECALLCONFLICT => 10061,
            Nfs4ErrorCode::NFS4ERR_UNKNOWN_LAYOUTTYPE => 10062,
            Nfs4ErrorCode::NFS4ERR_SEQ_MISORDERED => 10063,
            Nfs4ErrorCode::NFS4ERR_SEQUENCE_POS => 10064,
            Nfs4ErrorCode::NFS4ERR_REQ_TOO_BIG => 10065,
            Nfs4ErrorCode::NFS4ERR_REP_TOO_BIG => 10066,
            Nfs4ErrorCode::NFS4ERR_REP_TOO_BIG_TO_CACHE => 10067,
            Nfs4ErrorCode::NFS4ERR_RETRY_UNCACHED_REP => 10068,
            Nfs4ErrorCode::NFS4ERR_UNSAFE_COMPOUND => 10069,
            Nfs4ErrorCode::NFS4ERR_TOO_MANY_OPS => 10070,
            Nfs4ErrorCode::NFS4ERR_OP_NOT_IN_SESSION => 10071,
            Nfs4ErrorCode::NFS4ERR_HASH_ALG_UNSUPP => 10072,
            Nfs4ErrorCode::NFS4ERR_CLIENTID_BUSY => 10074,
            Nfs4ErrorCode::NFS4ERR_PNFS_IO_HOLE => 10075,
            Nfs4ErrorCode::NFS4ERR_SEQ_FALSE_RETRY => 10076,
            Nfs4ErrorCode::NFS4ERR_BAD_HIGH_SLOT => 10077,
            Nfs4ErrorCode::NFS4ERR_DEADSESSION => 10078,
            Nfs4ErrorCode::NFS4ERR_ENCR_ALG_UNSUPP => 10079,
            Nfs4ErrorCode::NFS4ERR_PNFS_NO_LAYOUT => 10080,
            Nfs4ErrorCode::NFS4ERR_NOT_ONLY_OP => 10081,
            Nfs4ErrorCode::NFS4ERR_WRONG_CRED => 10082,
            Nfs4ErrorCode::NFS4ERR_WRONG_TYPE => 10083,
            Nfs4ErrorCode::NFS4ERR_DIRDELEG_UNAVAIL => 10084,
            Nfs4ErrorCode::NFS4ERR_REJECT_DELEG => 10085,
            Nfs4ErrorCode::NFS4ERR_RETURNCONFLICT => 10086,
            Nfs4ErrorCode::NFS4ERR_DELEG_REVOKED => 10087,
        }
    }

    /// The status that a number stands for, if it stands for one.
    pub fn from_code(code: u32) -> (status: Option<Self>)
        ensures
            match status {
                Some(status) => status_code(status) == code,
                None => !is_status(code),
            },
    {
        let status = match code {
            0 => Nfs4ErrorCode::NFS4_OK,
            1 => Nfs4ErrorCode::NFS4ERR_PERM,
            2 => Nfs4ErrorCode::NFS4ERR_NOENT,
            5 => Nfs4ErrorCode::NFS4ERR_IO,
            6 => Nfs4ErrorCode::NFS4ERR_NXIO,
            13 => Nfs4ErrorCode::NFS4ERR_ACCESS,
            17 => Nfs4ErrorCode::NFS4ERR_EXIST,
            18 => Nfs4ErrorCode::NFS4ERR_XDEV,
            20 => Nfs4ErrorCode::NFS4ERR_NOTDIR,
            21 => Nfs4ErrorCode::NFS4ERR_ISDIR,
            22 => Nfs4ErrorCode::NFS4ERR_INVAL,
            27 => Nfs4ErrorCode::NFS4ERR_FBIG,
            28 => Nfs4ErrorCode::NFS4ERR_NOSPC,
            30 => Nfs4ErrorCode::NFS4ERR_ROFS,
            31 => Nfs4ErrorCode::NFS4ERR_MLINK,
            63 => Nfs4ErrorCode::NFS4ERR_NAMETOOLONG,
            66 => Nfs4ErrorCode::NFS4ERR_NOTEMPTY,
            69 => Nfs4ErrorCode::NFS4ERR_DQUOT,
            70 => Nfs4ErrorCode::NFS4ERR_STALE,
            10001 => Nfs4ErrorCode::NFS4ERR_BADHANDLE,
            10003 => Nfs4ErrorCode::NFS4ERR_BAD_COOKIE,
            10004 => Nfs4ErrorCode::NFS4ERR_NOTSUPP,
            10005 => Nfs4ErrorCode::NFS4ERR_TOOSMALL,
            10006 => Nfs4ErrorCode::NFS4ERR_SERVERFAULT,
            10007 => Nfs4ErrorCode::NFS4ERR_BADTYPE,
            10008 => Nfs4ErrorCode::NFS4ERR_DELAY,
            10009 => Nfs4ErrorCode::NFS4ERR_SAME,
            10010 => Nfs4ErrorCode::NFS4ERR_DENIED,
            10011 => Nfs4ErrorCode::NFS4ERR_EXPIRED,
            10012 => Nfs4ErrorCode::NFS4ERR_LOCKED,
            10013 => Nfs4ErrorCode::NFS4ERR_GRACE,
            10014 => Nfs4ErrorCode::NFS4ERR_FHEXPIRED,
            10015 => Nfs4ErrorCode::NFS4ERR_SHARE_DENIED,
            10016 => Nfs4ErrorCode::NFS4ERR_WRONGSEC,
            10017 => Nfs4ErrorCode::NFS4ERR_CLID_INUSE,
            10018 => Nfs4ErrorCode::NFS4ERR_RESOURCE,
            10019 => Nfs4ErrorCode::NFS4ERR_MOVED,
            10020 => Nfs4ErrorCode::NFS4ERR_NOFILEHANDLE,
            10021 => Nfs4ErrorCode::NFS4ERR_MINOR_VERS_MISMATCH,
            10022 => Nfs4ErrorCode::NFS4ERR_STALE_CLIENTID,
            10023 => Nfs4ErrorCode::NFS4ERR_STALE_STATEID,
            10024 => Nfs4ErrorCode::NFS4ERR_OLD_STATEID,
            10025 => Nfs4ErrorCode::NFS4ERR_BAD_STATEID,
            10026 => Nfs4ErrorCode::NFS4ERR_BAD_SEQID,
            10027 => Nfs4ErrorCode::NFS4ERR_NOT_SAME,
            10028 => Nfs4ErrorCode::NFS4ERR_LOCK_RANGE,
            10029 => Nfs4ErrorCode::NFS4ERR_SYMLINK,
            10030 => Nfs4ErrorCode::NFS4ERR_RESTOREFH,
            10031 => Nfs4ErrorCode::NFS4ERR_LEASE_MOVED,
            10032 => Nfs4ErrorCode::NFS4ERR_ATTRNOTSUPP,
            10033 => Nfs4ErrorCode::NFS4ERR_NO_GRACE,
            10034 => Nfs4ErrorCode::NFS4ERR_RECLAIM_BAD,
            10035 => Nfs4ErrorCode::NFS4ERR_RECLAIM_CONFLICT,
            10036 => Nfs4ErrorCode::NFS4ERR_BADXDR,
            10037 => Nfs4ErrorCode::NFS4ERR_LOCKS_HELD,
            10038 => Nfs4ErrorCode::NFS4ERR_OPENMODE,
            10039 => Nfs4ErrorCode::NFS4ERR_BADOWNER,
            10040 => Nfs4ErrorCode::NFS4ERR_BADCHAR,
            10041 => Nfs4ErrorCode::NFS4ERR_BADNAME,
            10042 => Nfs4ErrorCode::NFS4ERR_BAD_RANGE,
            10043 => Nfs4ErrorCode::NFS4ERR_LOCK_NOTSUPP,
            10044 => Nfs4ErrorCode::NFS4ERR_OP_ILLEGAL,
            10045 => Nfs4ErrorCode::NFS4ERR_DEADLOCK,
            10046 => Nfs4ErrorCode::NFS4ERR_FILE_OPEN,
            10047 => Nfs4ErrorCode::NFS4ERR_ADMIN_REVOKED,
            10048 => Nfs4ErrorCode::NFS4ERR_CB_PATH_DOWN,
            10049 => Nfs4ErrorCode::NFS4ERR_BADIOMODE,
            10050 => Nfs4ErrorCode::NFS4ERR_BADLAYOUT,
            10051 => Nfs4ErrorCode::NFS4ERR_BAD_SESSION_DIGEST,
            10052 => Nfs4ErrorCode::NFS4ERR_BADSESSION,
            10053 => Nfs4ErrorCode::NFS4ERR_BADSLOT,
            10054 => Nfs4ErrorCode::NFS4ERR_COMPLETE_ALREADY,
            10055 => Nfs4ErrorCode::NFS4ERR_CONN_NOT_BOUND_TO_SESSION,
            10056 => Nfs4ErrorCode::NFS4ERR_DELEG_ALREADY_WANTED,
            10057 => Nfs4ErrorCode::NFS4ERR_BACK_CHAN_BUSY,
            10058 => Nfs4ErrorCode::NFS4ERR_LAYOUTTRYLATER,
            10059 => Nfs4ErrorCode::NFS4ERR_LAYOUTUNAVAILABLE,
            10060 => Nfs4ErrorCode::NFS4ERR_NOMATCHING_LAYOUT,
            10061 => Nfs4ErrorCode::NFS4ERR_RECALLCONFLICT,
            10062 => Nfs4ErrorCode::NFS4ERR_UNKNOWN_LAYOUTTYPE,
            10063 => Nfs4ErrorCode::NFS4ERR_SEQ_MISORDERED,
            10064 => Nfs4ErrorCode::NFS4ERR_SEQUENCE_POS,
            10065 => Nfs4ErrorCode::NFS4ERR_REQ_TOO_BIG,
            10066 => Nfs4ErrorCode::NFS4ERR_REP_TOO_BIG,
            10067 => Nfs4ErrorCode::NFS4ERR_REP_TOO_BIG_TO_CACHE,
            10068 => Nfs4ErrorCode::NFS4ERR_RETRY_UNCACHED_REP,
            10069 => Nfs4ErrorCode::NFS4ERR_UNSAFE_COMPOUND,
            10070 => Nfs4ErrorCode::NFS4ERR_TOO_MANY_OPS,
            10071 => Nfs4ErrorCode::NFS4ERR_OP_NOT_IN_SESSION,
            10072 => Nfs4ErrorCode::NFS4ERR_HASH_ALG_UNSUPP,
            10074 => Nfs4ErrorCode::NFS4ERR_CLIENTID_BUSY,
            10075 => Nfs4ErrorCode::NFS4ERR_PNFS_IO_HOLE,
            10076 => Nfs4ErrorCode::NFS4ERR_SEQ_FALSE_RETRY,
            10077 => Nfs4ErrorCode::NFS4ERR_BAD_HIGH_SLOT,
            10078 => Nfs4ErrorCode::NFS4ERR_DEADSESSION,
            10079 => Nfs4ErrorCode::NFS4ERR_ENCR_ALG_UNSUPP,
            10080 => Nfs4ErrorCode::NFS4ERR_PNFS_NO_LAYOUT,
            10081 => Nfs4ErrorCode::NFS4ERR_NOT_ONLY_OP,
            10082 => Nfs4ErrorCode::NFS4ERR_WRONG_CRED,
            10083 => Nfs4ErrorCode::NFS4ERR_WRONG_TYPE,
            10084 => Nfs4ErrorCode::NFS4ERR_DIRDELEG_UNAVAIL,
            10085 => Nfs4ErrorCode::NFS4ERR_REJECT_DELEG,
            10086 => Nfs4ErrorCode::NFS4ERR_RETURNCONFLICT,
            10087 => Nfs4ErrorCode::NFS4ERR_DELEG_REVOKED,
            _ => return None,
        };
        Some(status)
    }

    /// What the status says in words.
    pub fn to_string(&self) -> (text: String)
        ensures
            text@ == status_text(*self),
    {
        let text = match self {
            Nfs4ErrorCode::NFS4_OK => "call completed successfully",
            Nfs4ErrorCode::NFS4ERR_PERM => "permission denied",
            Nfs4ErrorCode::NFS4ERR_NOENT => "no such file or directory",
            Nfs4ErrorCode::NFS4ERR_IO => "i/o error",
            Nfs4ErrorCode::NFS4ERR_NXIO => "no such device or address",
            Nfs4ErrorCode::NFS4ERR_ACCESS => "access denied",
            Nfs4ErrorCode::NFS4ERR_EXIST => "file exists",
            Nfs4ErrorCode::NFS4ERR_XDEV => "cross-device link",
            Nfs4ErrorCode::NFS4ERR_NOTDIR => "not a directory",
            Nfs4ErrorCode::NFS4ERR_ISDIR => "is a directory",
            Nfs4ErrorCode::NFS4ERR_INVAL => "invalid argument",
            Nfs4ErrorCode::NFS4ERR_FBIG => "file too large",
            Nfs4ErrorCode::NFS4ERR_NOSPC => "no space left on device",
            Nfs4ErrorCode::NFS4ERR_ROFS => "read-only file system",
            Nfs4ErrorCode::NFS4ERR_MLINK => "too many links",
            Nfs4ErrorCode::NFS4ERR_NAMETOOLONG => "file name too long",
            Nfs4ErrorCode::NFS4ERR_NOTEMPTY => "directory not empty",
            Nfs4ErrorCode::NFS4ERR_DQUOT => "quota exceeded",
            Nfs4ErrorCode::NFS4ERR_STALE => "stale file handle",
            Nfs4ErrorCode::NFS4ERR_BADHANDLE => "bad file handle",
            Nfs4ErrorCode::NFS4ERR_BAD_COOKIE => "bad cookie",
            Nfs4ErrorCode::NFS4ERR_NOTSUPP => "operation not supported",
            Nfs4ErrorCode::NFS4ERR_TOOSMALL => "buffer too small",
            Nfs4ErrorCode::NFS4ERR_SERVERFAULT => "server fault",
            Nfs4ErrorCode::NFS4ERR_BADTYPE => "bad type",
            Nfs4ErrorCode::NFS4ERR_DELAY => "server busy, retry later",
            Nfs4ErrorCode::NFS4ERR_SAME => "attributes are the same",
            Nfs4ErrorCode::NFS4ERR_DENIED => "lock denied",
            Nfs4ErrorCode::NFS4ERR_EXPIRED => "lock/stateid expired",
            Nfs4ErrorCode::NFS4ERR_LOCKED => "file locked",
            Nfs4ErrorCode::NFS4ERR_GRACE => "server in grace period",
            Nfs4ErrorCode::NFS4ERR_FHEXPIRED => "file handle expired",
            Nfs4ErrorCode::NFS4ERR_SHARE_DENIED => "share reservation denied",
            Nfs4ErrorCode::NFS4ERR_WRONGSEC => "wrong security flavor",
            Nfs4ErrorCode::NFS4ERR_CLID_INUSE => "client ID in use",
            Nfs4ErrorCode::NFS4ERR_RESOURCE => "resource exhausted",
            Nfs4ErrorCode::NFS4ERR_MOVED => "file system moved",
            Nfs4ErrorCode::NFS4ERR_NOFILEHANDLE => "no current file handle",
            Nfs4ErrorCode::NFS4ERR_MINOR_VERS_MISMATCH => "minor version mismatch",
            Nfs4ErrorCode::NFS4ERR_STALE_CLIENTID => "stale client ID",
            Nfs4ErrorCode::NFS4ERR_STALE_STATEID => "stale state ID",
            Nfs4ErrorCode::NFS4ERR_OLD_STATEID => "old state ID",
            Nfs4ErrorCode::NFS4ERR_BAD_STATEID => "bad state ID",
            Nfs4ErrorCode::NFS4ERR_BAD_SEQID => "bad sequence ID",
            Nfs4ErrorCode::NFS4ERR_NOT_SAME => "attributes are not the same",
            Nfs4ErrorCode::NFS4ERR_LOCK_RANGE => "lock range not supported",
            Nfs4ErrorCode::NFS4ERR_SYMLINK => "is a symbolic link",
            Nfs4ErrorCode::NFS4ERR_RESTOREFH => "no saved file handle",
            Nfs4ErrorCode::NFS4ERR_LEASE_MOVED => "lease moved",
            Nfs4ErrorCode::NFS4ERR_ATTRNOTSUPP => "attribute not supported",
            Nfs4ErrorCode::NFS4ERR_NO_GRACE => "no grace period",
            Nfs4ErrorCode::NFS4ERR_RECLAIM_BAD => "bad reclaim",
            Nfs4ErrorCode::NFS4ERR_RECLAIM_CONFLICT => "reclaim conflict",
            Nfs4ErrorCode::NFS4ERR_BADXDR => "bad XDR",
            Nfs4ErrorCode::NFS4ERR_LOCKS_HELD => "locks held",
            Nfs4ErrorCode::NFS4ERR_OPENMODE => "open mode conflict",
            Nfs4ErrorCode::NFS4ERR_BADOWNER => "bad owner",
            Nfs4ErrorCode::NFS4ERR_BADCHAR => "bad character",
            Nfs4ErrorCode::NFS4ERR_BADNAME => "bad name",
            Nfs4ErrorCode::NFS4ERR_BAD_RANGE => "bad range",
            Nfs4ErrorCode::NFS4ERR_LOCK_NOTSUPP => "lock not supported",
            Nfs4ErrorCode::NFS4ERR_OP_ILLEGAL => "illegal operation",
            Nfs4ErrorCode::NFS4ERR_DEADLOCK => "deadlock",
            Nfs4ErrorCode::NFS4ERR_FILE_OPEN => "file open",
            Nfs4ErrorCode::NFS4ERR_ADMIN_REVOKED => "revoked by administrator",
            Nfs4ErrorCode::NFS4ERR_CB_PATH_DOWN => "callback path down",
            Nfs4ErrorCode::NFS4ERR_BADIOMODE => "bad I/O mode",
            Nfs4ErrorCode::NFS4ERR_BADLAYOUT => "bad layout",
            Nfs4ErrorCode::NFS4ERR_BAD_SESSION_DIGEST => "bad session digest",
            Nfs4ErrorCode::NFS4ERR_BADSESSION => "bad session",
            Nfs4ErrorCode::NFS4ERR_BADSLOT => "bad slot",
            Nfs4ErrorCode::NFS4ERR_COMPLETE_ALREADY => "reclaim already complete",
            Nfs4ErrorCode::NFS4ERR_CONN_NOT_BOUND_TO_SESSION => "connection not bound to session",
            Nfs4ErrorCode::NFS4ERR_DELEG_ALREADY_WANTED => "delegation already wanted",
            Nfs4ErrorCode::NFS4ERR_BACK_CHAN_BUSY => "back channel busy",
            Nfs4ErrorCode::NFS4ERR_LAYOUTTRYLATER => "layout try later",
            Nfs4ErrorCode::NFS4ERR_LAYOUTUNAVAILABLE => "layout unavailable",
            Nfs4ErrorCode::NFS4ERR_NOMATCHING_LAYOUT => "no matching layout",
            Nfs4ErrorCode::NFS4ERR_RECALLCONFLICT => "recall conflict",
            Nfs4ErrorCode::NFS4ERR_UNKNOWN_LAYOUTTYPE => "unknown layout type",
            Nfs4ErrorCode::NFS4ERR_SEQ_MISORDERED => "sequence misordered",
            Nfs4ErrorCode::NFS4ERR_SEQUENCE_POS => "bad SEQUENCE position",
            Nfs4ErrorCode::NFS4ERR_REQ_TOO_BIG => "request too big",
            Nfs4ErrorCode::NFS4ERR_REP_TOO_BIG => "reply too big",
            Nfs4ErrorCode::NFS4ERR_REP_TOO_BIG_TO_CACHE => "reply too big to cache",
            Nfs4ErrorCode::NFS4ERR_RETRY_UNCACHED_REP => "retry of uncached reply",
            Nfs4ErrorCode::NFS4ERR_UNSAFE_COMPOUND => "unsafe compound",
            Nfs4ErrorCode::NFS4ERR_TOO_MANY_OPS => "too many operations",
            Nfs4ErrorCode::NFS4ERR_OP_NOT_IN_SESSION => "operation not in session",
            Nfs4ErrorCode::NFS4ERR_HASH_ALG_UNSUPP => "hash algorithm not supported",
            Nfs4ErrorCode::NFS4ERR_CLIENTID_BUSY => "client ID busy",
            Nfs4ErrorCode::NFS4ERR_PNFS_IO_HOLE => "pNFS I/O hole",
            Nfs4ErrorCode::NFS4ERR_SEQ_FALSE_RETRY => "false retry",
            Nfs4ErrorCode::NFS4ERR_BAD_HIGH_SLOT => "bad highest slot",
            Nfs4ErrorCode::NFS4ERR_DEADSESSION => "dead session",
            Nfs4ErrorCode::NFS4ERR_ENCR_ALG_UNSUPP => "encryption algorithm not supported",
            Nfs4ErrorCode::NFS4ERR_PNFS_NO_LAYOUT => "no pNFS layout",
            Nfs4ErrorCode::NFS4ERR_NOT_ONLY_OP => "not the only operation",
            Nfs4ErrorCode::NFS4ERR_WRONG_CRED => "wrong credential",
            Nfs4ErrorCode::NFS4ERR_WRONG_TYPE => "wrong type",
            Nfs4ErrorCode::NFS4ERR_DIRDELEG_UNAVAIL => "directory delegation unavailable",
            Nfs4ErrorCode::NFS4ERR_REJECT_DELEG => "delegation rejected",
            Nfs4ErrorCode::NFS4ERR_RETURNCONFLICT => "return conflict",
            Nfs4ErrorCode::NFS4ERR_DELEG_REVOKED => "delegation revoked",
        };
        String::from_str(text)
    }
}

/// What a status word of a reply means: success, the status, or a malformed reply.
pub open spec fn status_word(code: u32) -> Result<Nfs4ErrorCode, ErrorView> {
    if is_status(code) {
        Ok(status_of(code))
    } else {
        Err(bad_status(code))
    }
}

/// A status on the wire is the one to which the protocol gives that number.
pub proof fn law_numbers_of_statuses()
    ensures
        status_word(0) == Ok::<Nfs4ErrorCode, ErrorView>(Nfs4ErrorCode::NFS4_OK),
        status_word(1) == Ok::<Nfs4ErrorCode, ErrorView>(Nfs4ErrorCode::NFS4ERR_PERM),
        status_word(2) == Ok::<Nfs4ErrorCode, ErrorView>(Nfs4ErrorCode::NFS4ERR_NOENT),
        status_word(5) == Ok::<Nfs4ErrorCode, ErrorView>(Nfs4ErrorCode::NFS4ERR_IO),
        status_word(6) == Ok::<Nfs4ErrorCode, ErrorView>(Nfs4ErrorCode::NFS4ERR_NXIO),
        status_word(13) == Ok::<Nfs4ErrorCode, ErrorView>(Nfs4ErrorCode::NFS4ERR_ACCESS),
        status_word(17) == Ok::<Nfs4ErrorCode, ErrorView>(Nfs4ErrorCode::NFS4ERR_EXIST),
        status_word(18) == Ok::<Nfs4ErrorCode, ErrorView>(Nfs4ErrorCode::NFS4ERR_XDEV),
        status_word(20) == Ok::<Nfs4ErrorCode, ErrorView>(Nfs4ErrorCode::NFS4ERR_NOTDIR),
        status_word(21) == Ok::<Nfs4ErrorCode, ErrorView>(Nfs4ErrorCode::NFS4ERR_ISDIR),
        status_word(22) == Ok::<Nfs4ErrorCode, ErrorView>(Nfs4ErrorCode::NFS4ERR_INVAL),
        status_word(27) == Ok::<Nfs4ErrorCode, ErrorView>(Nfs4ErrorCode::NFS4ERR_FBIG),
        status_word(28) == Ok::<Nfs4ErrorCode, ErrorView>(Nfs4ErrorCode::NFS4ERR_NOSPC),
        status_word(30) == Ok::<Nfs4ErrorCode, ErrorView>(Nfs4ErrorCode::NFS4ERR_ROFS),
        status_word(31) == Ok::<Nfs4ErrorCode, ErrorView>(Nfs4ErrorCode::NFS4ERR_MLINK),
        status_word(63) == Ok::<Nfs4ErrorCode, ErrorView>(Nfs4ErrorCode::NFS4ERR_NAMETOOLONG),
        status_word(66) == Ok::<Nfs4ErrorCode, ErrorView>(Nfs4ErrorCode::NFS4ERR_NOTEMPTY),
        status_word(69) == Ok::<Nfs4ErrorCode, ErrorView>(Nfs4ErrorCode::NFS4ERR_DQUOT),
        status_word(70) == Ok::<Nfs4ErrorCode, ErrorView>(Nfs4ErrorCode::NFS4ERR_STALE),
        status_word(10001) == Ok::<Nfs4ErrorCode, ErrorView>(Nfs4ErrorCode::NFS4ERR_BADHANDLE),
        status_word(10003) == Ok::<Nfs4ErrorCode, ErrorView>(Nfs4ErrorCode::NFS4ERR_BAD_COOKIE),
        status_word(10004) == Ok::<Nfs4ErrorCode, ErrorView>(Nfs4ErrorCode::NFS4ERR_NOTSUPP),
        status_word(10005) == Ok::<Nfs4ErrorCode, ErrorView>(Nfs4ErrorCode::NFS4ERR_TOOSMALL),
        status_word(10006) == Ok::<Nfs4ErrorCode, ErrorView>(Nfs4ErrorCode::NFS4ERR_SERVERFAULT),
        status_word(10007) == Ok::<Nfs4ErrorCode, ErrorView>(Nfs4ErrorCode::NFS4ERR_BADTYPE),
        status_word(10008) == Ok::<Nfs4ErrorCode, ErrorView>(Nfs4ErrorCode::NFS4ERR_DELAY),
        status_word(10009) == Ok::<Nfs4ErrorCode, ErrorView>(Nfs4ErrorCode::NFS4ERR_SAME),
        status_word(10010) == Ok::<Nfs4ErrorCode, ErrorView>(Nfs4ErrorCode::NFS4ERR_DENIED),
        status_word(10011) == Ok::<Nfs4ErrorCode, ErrorView>(Nfs4ErrorCode::NFS4ERR_EXPIRED),
        status_word(10012) == Ok::<Nfs4ErrorCode, ErrorView>(Nfs4ErrorCode::NFS4ERR_LOCKED),
        status_word(10013) == Ok::<Nfs4ErrorCode, ErrorView>(Nfs4ErrorCode::NFS4ERR_GRACE),
        status_word(10014) == Ok::<Nfs4ErrorCode, ErrorView>(Nfs4ErrorCode::NFS4ERR_FHEXPIRED),
        status_word(10015) == Ok::<Nfs4ErrorCode, ErrorView>(Nfs4ErrorCode::NFS4ERR_SHARE_DENIED),
        status_word(10016) == Ok::<Nfs4ErrorCode, ErrorView>(Nfs4ErrorCode::NFS4ERR_WRONGSEC),
        status_word(10017) == Ok::<Nfs4ErrorCode, ErrorView>(Nfs4ErrorCode::NFS4ERR_CLID_INUSE),
        status_word(10018) == Ok::<Nfs4ErrorCode, ErrorView>(Nfs4ErrorCode::NFS4ERR_RESOURCE),
        status_word(10019) == Ok::<Nfs4ErrorCode, ErrorView>(Nfs4ErrorCode::NFS4ERR_MOVED),
        status_word(10020) == Ok::<Nfs4ErrorCode, ErrorView>(Nfs4ErrorCode::NFS4ERR_NOFILEHANDLE),
        status_word(10021) == Ok::<Nfs4ErrorCode, ErrorView>(Nfs4ErrorCode::NFS4ERR_MINOR_VERS_MISMATCH),
        status_word(10022) == Ok::<Nfs4ErrorCode, ErrorView>(Nfs4ErrorCode::NFS4ERR_STALE_CLIENTID),
        status_word(10023) == Ok::<Nfs4ErrorCode, ErrorView>(Nfs4ErrorCode::NFS4ERR_STALE_STATEID),
        status_word(10024) == Ok::<Nfs4ErrorCode, ErrorView>(Nfs4ErrorCode::NFS4ERR_OLD_STATEID),
        status_word(10025) == Ok::<Nfs4ErrorCode, ErrorView>(Nfs4ErrorCode::NFS4ERR_BAD_STATEID),
        status_word(10026) == Ok::<Nfs4ErrorCode, ErrorView>(Nfs4ErrorCode::NFS4ERR_BAD_SEQID),
        status_word(10027) == Ok::<Nfs4ErrorCode, ErrorView>(Nfs4ErrorCode::NFS4ERR_NOT_SAME),
        status_word(10028) == Ok::<Nfs4ErrorCode, ErrorView>(Nfs4ErrorCode::NFS4ERR_LOCK_RANGE),
        status_word(10029) == Ok::<Nfs4ErrorCode, ErrorView>(Nfs4ErrorCode::NFS4ERR_SYMLINK),
        status_word(10030) == Ok::<Nfs4ErrorCode, ErrorView>(Nfs4ErrorCode::NFS4ERR_RESTOREFH),
        status_word(10031) == Ok::<Nfs4ErrorCode, ErrorView>(Nfs4ErrorCode::NFS4ERR_LEASE_MOVED),
        status_word(10032) == Ok::<Nfs4ErrorCode, ErrorView>(Nfs4ErrorCode::NFS4ERR_ATTRNOTSUPP),
        status_word(10033) == Ok::<Nfs4ErrorCode, ErrorView>(Nfs4ErrorCode::NFS4ERR_NO_GRACE),
        status_word(10034) == Ok::<Nfs4ErrorCode, ErrorView>(Nfs4ErrorCode::NFS4ERR_RECLAIM_BAD),
        status_word(10035) == Ok::<Nfs4ErrorCode, ErrorView>(Nfs4ErrorCode::NFS4ERR_RECLAIM_CONFLICT),
        status_word(10036) == Ok::<Nfs4ErrorCode, ErrorView>(Nfs4ErrorCode::NFS4ERR_BADXDR),
        status_word(10037) == Ok::<Nfs4ErrorCode, ErrorView>(Nfs4ErrorCode::NFS4ERR_LOCKS_HELD),
        status_word(10038) == Ok::<Nfs4ErrorCode, ErrorView>(Nfs4ErrorCode::NFS4ERR_OPENMODE),
        status_word(10039) == Ok::<Nfs4ErrorCode, ErrorView>(Nfs4ErrorCode::NFS4ERR_BADOWNER),
        status_word(10040) == Ok::<Nfs4ErrorCode, ErrorView>(Nfs4ErrorCode::NFS4ERR_BADCHAR),
        status_word(10041) == Ok::<Nfs4ErrorCode, ErrorView>(Nfs4ErrorCode::NFS4ERR_BADNAME),
        status_word(10042) == Ok::<Nfs4ErrorCode, ErrorView>(Nfs4ErrorCode::NFS4ERR_BAD_RANGE),
        status_word(10043) == Ok::<Nfs4ErrorCode, ErrorView>(Nfs4ErrorCode::NFS4ERR_LOCK_NOTSUPP),
        status_word(10044) == Ok::<Nfs4ErrorCode, ErrorView>(Nfs4ErrorCode::NFS4ERR_OP_ILLEGAL),
        status_word(10045) == Ok::<Nfs4ErrorCode, ErrorView>(Nfs4ErrorCode::NFS4ERR_DEADLOCK),
        status_word(10046) == Ok::<Nfs4ErrorCode, ErrorView>(Nfs4ErrorCode::NFS4ERR_FILE_OPEN),
        status_word(10047) == Ok::<Nfs4ErrorCode, ErrorView>(Nfs4ErrorCode::NFS4ERR_ADMIN_REVOKED),
        status_word(10048) == Ok::<Nfs4ErrorCode, ErrorView>(Nfs4ErrorCode::NFS4ERR_CB_PATH_DOWN),
        status_word(10049) == Ok::<Nfs4ErrorCode, ErrorView>(Nfs4ErrorCode::NFS4ERR_BADIOMODE),
        status_word(10050) == Ok::<Nfs4ErrorCode, ErrorView>(Nfs4ErrorCode::NFS4ERR_BADLAYOUT),
        status_word(10051) == Ok::<Nfs4ErrorCode, ErrorView>(Nfs4ErrorCode::NFS4ERR_BAD_SESSION_DIGEST),
        status_word(10052) == Ok::<Nfs4ErrorCode, ErrorView>(Nfs4ErrorCode::NFS4ERR_BADSESSION),
        status_word(10053) == Ok::<Nfs4ErrorCode, ErrorView>(Nfs4ErrorCode::NFS4ERR_BADSLOT),
        status_word(10054) == Ok::<Nfs4ErrorCode, ErrorView>(Nfs4ErrorCode::NFS4ERR_COMPLETE_ALREADY),
        status_word(10055) == Ok::<Nfs4ErrorCode, ErrorView>(Nfs4ErrorCode::NFS4ERR_CONN_NOT_BOUND_TO_SESSION),
        status_word(10056) == Ok::<Nfs4ErrorCode, ErrorView>(Nfs4ErrorCode::NFS4ERR_DELEG_ALREADY_WANTED),
        status_word(10057) == Ok::<Nfs4ErrorCode, ErrorView>(Nfs4ErrorCode::NFS4ERR_BACK_CHAN_BUSY),
        status_word(10058) == Ok::<Nfs4ErrorCode, ErrorView>(Nfs4ErrorCode::NFS4ERR_LAYOUTTRYLATER),
        status_word(10059) == Ok::<Nfs4ErrorCode, ErrorView>(Nfs4ErrorCode::NFS4ERR_LAYOUTUNAVAILABLE),
        status_word(10060) == Ok::<Nfs4ErrorCode, ErrorView>(Nfs4ErrorCode::NFS4ERR_NOMATCHING_LAYOUT),
        status_word(10061) == Ok::<Nfs4ErrorCode, ErrorView>(Nfs4ErrorCode::NFS4ERR_RECALLCONFLICT),
        status_word(10062) == Ok::<Nfs4ErrorCode, ErrorView>(Nfs4ErrorCode::NFS4ERR_UNKNOWN_LAYOUTTYPE),
        status_word(10063) == Ok::<Nfs4ErrorCode, ErrorView>(Nfs4ErrorCode::NFS4ERR_SEQ_MISORDERED),
        status_word(10064) == Ok::<Nfs4ErrorCode, ErrorView>(Nfs4ErrorCode::NFS4ERR_SEQUENCE_POS),
        status_word(10065) == Ok::<Nfs4ErrorCode, ErrorView>(Nfs4ErrorCode::NFS4ERR_REQ_TOO_BIG),
        status_word(10066) == Ok::<Nfs4ErrorCode, ErrorView>(Nfs4ErrorCode::NFS4ERR_REP_TOO_BIG),
        status_word(10067) == Ok::<Nfs4ErrorCode, ErrorView>(Nfs4ErrorCode::NFS4ERR_REP_TOO_BIG_TO_CACHE),
        status_word(10068) == Ok::<Nfs4ErrorCode, ErrorView>(Nfs4ErrorCode::NFS4ERR_RETRY_UNCACHED_REP),
        status_word(10069) == Ok::<Nfs4ErrorCode, ErrorView>(Nfs4ErrorCode::NFS4ERR_UNSAFE_COMPOUND),
        status_word(10070) == Ok::<Nfs4ErrorCode, ErrorView>(Nfs4ErrorCode::NFS4ERR_TOO_MANY_OPS),
        status_word(10071) == Ok::<Nfs4ErrorCode, ErrorView>(Nfs4ErrorCode::NFS4ERR_OP_NOT_IN_SESSION),
        status_word(10072) == Ok::<Nfs4ErrorCode, ErrorView>(Nfs4ErrorCode::NFS4ERR_HASH_ALG_UNSUPP),
        status_word(10074) == Ok::<Nfs4ErrorCode, ErrorView>(Nfs4ErrorCode::NFS4ERR_CLIENTID_BUSY),
        status_word(10075) == Ok::<Nfs4ErrorCode, ErrorView>(Nfs4ErrorCode::NFS4ERR_PNFS_IO_HOLE),
        status_word(10076) == Ok::<Nfs4ErrorCode, ErrorView>(Nfs4ErrorCode::NFS4ERR_SEQ_FALSE_RETRY),
        status_word(10077) == Ok::<Nfs4ErrorCode, ErrorView>(Nfs4ErrorCode::NFS4ERR_BAD_HIGH_SLOT),
        status_word(10078) == Ok::<Nfs4ErrorCode, ErrorView>(Nfs4ErrorCode::NFS4ERR_DEADSESSION),
        status_word(10079) == Ok::<Nfs4ErrorCode, ErrorView>(Nfs4ErrorCode::NFS4ERR_ENCR_ALG_UNSUPP),
        status_word(10080) == Ok::<Nfs4ErrorCode, ErrorView>(Nfs4ErrorCode::NFS4ERR_PNFS_NO_LAYOUT),
        status_word(10081) == Ok::<Nfs4ErrorCode, ErrorView>(Nfs4ErrorCode::NFS4ERR_NOT_ONLY_OP),
        status_word(10082) == Ok::<Nfs4ErrorCode, ErrorView>(Nfs4ErrorCode::NFS4ERR_WRONG_CRED),
        status_word(10083) == Ok::<Nfs4ErrorCode, ErrorView>(Nfs4ErrorCode::NFS4ERR_WRONG_TYPE),
        status_word(10084) == Ok::<Nfs4ErrorCode, ErrorView>(Nfs4ErrorCode::NFS4ERR_DIRDELEG_UNAVAIL),
        status_word(10085) == Ok::<Nfs4ErrorCode, ErrorView>(Nfs4ErrorCode::NFS4ERR_REJECT_DELEG),
        status_word(10086) == Ok::<Nfs4ErrorCode, ErrorView>(Nfs4ErrorCode::NFS4ERR_RETURNCONFLICT),
        status_word(10087) == Ok::<Nfs4ErrorCode, ErrorView>(Nfs4ErrorCode::NFS4ERR_DELEG_REVOKED),
{
    lemma_status_of_code(Nfs4ErrorCode::NFS4_OK);
    lemma_status_of_code(Nfs4ErrorCode::NFS4ERR_PERM);
    lemma_status_of_code(Nfs4ErrorCode::NFS4ERR_NOENT);
    lemma_status_of_code(Nfs4ErrorCode::NFS4ERR_IO);
    lemma_status_of_code(Nfs4ErrorCode::NFS4ERR_NXIO);
    lemma_status_of_code(Nfs4ErrorCode::NFS4ERR_ACCESS);
    lemma_status_of_code(Nfs4ErrorCode::NFS4ERR_EXIST);
    lemma_status_of_code(Nfs4ErrorCode::NFS4ERR_XDEV);
    lemma_status_of_code(Nfs4ErrorCode::NFS4ERR_NOTDIR);
    lemma_status_of_code(Nfs4ErrorCode::NFS4ERR_ISDIR);
    lemma_status_of_code(Nfs4ErrorCode::NFS4ERR_INVAL);
    lemma_status_of_code(Nfs4ErrorCode::NFS4ERR_FBIG);
    lemma_status_of_code(Nfs4ErrorCode::NFS4ERR_NOSPC);
    lemma_status_of_code(Nfs4ErrorCode::NFS4ERR_ROFS);
    lemma_status_of_code(Nfs4ErrorCode::NFS4ERR_MLINK);
    lemma_status_of_code(Nfs4ErrorCode::NFS4ERR_NAMETOOLONG);
    lemma_status_of_code(Nfs4ErrorCode::NFS4ERR_NOTEMPTY);
    lemma_status_of_code(Nfs4ErrorCode::NFS4ERR_DQUOT);
    lemma_status_of_code(Nfs4ErrorCode::NFS4ERR_STALE);
    lemma_status_of_code(Nfs4ErrorCode::NFS4ERR_BADHANDLE);
    lemma_status_of_code(Nfs4ErrorCode::NFS4ERR_BAD_COOKIE);
    lemma_status_of_code(Nfs4ErrorCode::NFS4ERR_NOTSUPP);
    lemma_status_of_code(Nfs4ErrorCode::NFS4ERR_TOOSMALL);
    lemma_status_of_code(Nfs4ErrorCode::NFS4ERR_SERVERFAULT);
    lemma_status_of_code(Nfs4ErrorCode::NFS4ERR_BADTYPE);
    lemma_status_of_code(Nfs4ErrorCode::NFS4ERR_DELAY);
    lemma_status_of_code(Nfs4ErrorCode::NFS4ERR_SAME);
    lemma_status_of_code(Nfs4ErrorCode::NFS4ERR_DENIED);
    lemma_status_of_code(Nfs4ErrorCode::NFS4ERR_EXPIRED);
    lemma_status_of_code(Nfs4ErrorCode::NFS4ERR_LOCKED);
    lemma_status_of_code(Nfs4ErrorCode::NFS4ERR_GRACE);
    lemma_status_of_code(Nfs4ErrorCode::NFS4ERR_FHEXPIRED);
    lemma_status_of_code(Nfs4ErrorCode::NFS4ERR_SHARE_DENIED);
    lemma_status_of_code(Nfs4ErrorCode::NFS4ERR_WRONGSEC);
    lemma_status_of_code(Nfs4ErrorCode::NFS4ERR_CLID_INUSE);
    lemma_status_of_code(Nfs4ErrorCode::NFS4ERR_RESOURCE);
    lemma_status_of_code(Nfs4ErrorCode::NFS4ERR_MOVED);
    lemma_status_of_code(Nfs4ErrorCode::NFS4ERR_NOFILEHANDLE);
    lemma_status_of_code(Nfs4ErrorCode::NFS4ERR_MINOR_VERS_MISMATCH);
    lemma_status_of_code(Nfs4ErrorCode::NFS4ERR_STALE_CLIENTID);
    lemma_status_of_code(Nfs4ErrorCode::NFS4ERR_STALE_STATEID);
    lemma_status_of_code(Nfs4ErrorCode::NFS4ERR_OLD_STATEID);
    lemma_status_of_code(Nfs4ErrorCode::NFS4ERR_BAD_STATEID);
    lemma_status_of_code(Nfs4ErrorCode::NFS4ERR_BAD_SEQID);
    lemma_status_of_code(Nfs4ErrorCode::NFS4ERR_NOT_SAME);
    lemma_status_of_code(Nfs4ErrorCode::NFS4ERR_LOCK_RANGE);
    lemma_status_of_code(Nfs4ErrorCode::NFS4ERR_SYMLINK);
    lemma_status_of_code(Nfs4ErrorCode::NFS4ERR_RESTOREFH);
    lemma_status_of_code(Nfs4ErrorCode::NFS4ERR_LEASE_MOVED);
    lemma_status_of_code(Nfs4ErrorCode::NFS4ERR_ATTRNOTSUPP);
    lemma_status_of_code(Nfs4ErrorCode::NFS4ERR_NO_GRACE);
    lemma_status_of_code(Nfs4ErrorCode::NFS4ERR_RECLAIM_BAD);
    lemma_status_of_code(Nfs4ErrorCode::NFS4ERR_RECLAIM_CONFLICT);
    lemma_status_of_code(Nfs4ErrorCode::NFS4ERR_BADXDR);
    lemma_status_of_code(Nfs4ErrorCode::NFS4ERR_LOCKS_HELD);
    lemma_status_of_code(Nfs4ErrorCode::NFS4ERR_OPENMODE);
    lemma_status_of_code(Nfs4ErrorCode::NFS4ERR_BADOWNER);
    lemma_status_of_code(Nfs4ErrorCode::NFS4ERR_BADCHAR);
    lemma_status_of_code(Nfs4ErrorCode::NFS4ERR_BADNAME);
    lemma_status_of_code(Nfs4ErrorCode::NFS4ERR_BAD_RANGE);
    lemma_status_of_code(Nfs4ErrorCode::NFS4ERR_LOCK_NOTSUPP);
    lemma_status_of_code(Nfs4ErrorCode::NFS4ERR_OP_ILLEGAL);
    lemma_status_of_code(Nfs4ErrorCode::NFS4ERR_DEADLOCK);
    lemma_status_of_code(Nfs4ErrorCode::NFS4ERR_FILE_OPEN);
    lemma_status_of_code(Nfs4ErrorCode::NFS4ERR_ADMIN_REVOKED);
    lemma_status_of_code(Nfs4ErrorCode::NFS4ERR_CB_PATH_DOWN);
    lemma_status_of_code(Nfs4ErrorCode::NFS4ERR_BADIOMODE);
    lemma_status_of_code(Nfs4ErrorCode::NFS4ERR_BADLAYOUT);
    lemma_status_of_code(Nfs4ErrorCode::NFS4ERR_BAD_SESSION_DIGEST);
    lemma_status_of_code(Nfs4ErrorCode::NFS4ERR_BADSESSION);
    lemma_status_of_code(Nfs4ErrorCode::NFS4ERR_BADSLOT);
    lemma_status_of_code(Nfs4ErrorCode::NFS4ERR_COMPLETE_ALREADY);
    lemma_status_of_code(Nfs4ErrorCode::NFS4ERR_CONN_NOT_BOUND_TO_SESSION);
    lemma_status_of_code(Nfs4ErrorCode::NFS4ERR_DELEG_ALREADY_WANTED);
    lemma_status_of_code(Nfs4ErrorCode::NFS4ERR_BACK_CHAN_BUSY);
    lemma_status_of_code(Nfs4ErrorCode::NFS4ERR_LAYOUTTRYLATER);
    lemma_status_of_code(Nfs4ErrorCode::NFS4ERR_LAYOUTUNAVAILABLE);
    lemma_status_of_code(Nfs4ErrorCode::NFS4ERR_NOMATCHING_LAYOUT);
    lemma_status_of_code(Nfs4ErrorCode::NFS4ERR_RECALLCONFLICT);
    lemma_status_of_code(Nfs4ErrorCode::NFS4ERR_UNKNOWN_LAYOUTTYPE);
    lemma_status_of_code(Nfs4ErrorCode::NFS4ERR_SEQ_MISORDERED);
    lemma_status_of_code(Nfs4ErrorCode::NFS4ERR_SEQUENCE_POS);
    lemma_status_of_code(Nfs4ErrorCode::NFS4ERR_REQ_TOO_BIG);
    lemma_status_of_code(Nfs4ErrorCode::NFS4ERR_REP_TOO_BIG);
    lemma_status_of_code(Nfs4ErrorCode::NFS4ERR_REP_TOO_BIG_TO_CACHE);
    lemma_status_of_code(Nfs4ErrorCode::NFS4ERR_RETRY_UNCACHED_REP);
    lemma_status_of_code(Nfs4ErrorCode::NFS4ERR_UNSAFE_COMPOUND);
    lemma_status_of_code(Nfs4ErrorCode::NFS4ERR_TOO_MANY_OPS);
    lemma_status_of_code(Nfs4ErrorCode::NFS4ERR_OP_NOT_IN_SESSION);
    lemma_status_of_code(Nfs4ErrorCode::NFS4ERR_HASH_ALG_UNSUPP);
    lemma_status_of_code(Nfs4ErrorCode::NFS4ERR_CLIENTID_BUSY);
    lemma_status_of_code(Nfs4ErrorCode::NFS4ERR_PNFS_IO_HOLE);
    lemma_status_of_code(Nfs4ErrorCode::NFS4ERR_SEQ_FALSE_RETRY);
    lemma_status_of_code(Nfs4ErrorCode::NFS4ERR_BAD_HIGH_SLOT);
    lemma_status_of_code(Nfs4ErrorCode::NFS4ERR_DEADSESSION);
    lemma_status_of_code(Nfs4ErrorCode::NFS4ERR_ENCR_ALG_UNSUPP);
    lemma_status_of_code(Nfs4ErrorCode::NFS4ERR_PNFS_NO_LAYOUT);
    lemma_status_of_code(Nfs4ErrorCode::NFS4ERR_NOT_ONLY_OP);
    lemma_status_of_code(Nfs4ErrorCode::NFS4ERR_WRONG_CRED);
    lemma_status_of_code(Nfs4ErrorCode::NFS4ERR_WRONG_TYPE);
    lemma_status_of_code(Nfs4ErrorCode::NFS4ERR_DIRDELEG_UNAVAIL);
    lemma_status_of_code(Nfs4ErrorCode::NFS4ERR_REJECT_DELEG);
    lemma_status_of_code(Nfs4ErrorCode::NFS4ERR_RETURNCONFLICT);
    lemma_status_of_code(Nfs4ErrorCode::NFS4ERR_DELEG_REVOKED);
}


} // verus!
