//! ONC RPC (RFC 5531): the credentials and the header of a call.

use vstd::prelude::*;
use vstd::utf8::encode_utf8;

use crate::wire::{holds, Fields};
use crate::xdr::{be32, opaque};
use crate::xdr::{xdr_string, xdr_u32, xdr_var_bytes};

verus! {

pub const AUTH_NONE: u32 = 0;

pub const AUTH_SYS: u32 = 1;

pub const RPC_CALL: u32 = 0;

pub const RPC_VERSION: u32 = 2;

/// The credential that a call carries.
#[derive(Clone, Debug)]
pub struct Auth {
    pub flavor: u32,
    pub body: Vec<u8>,
}

/// The body of an AUTH_SYS credential without supplementary groups.
pub open spec fn auth_sys_body(machine: Seq<char>, uid: u32, gid: u32) -> Seq<u8> {
    be32(0) + opaque(encode_utf8(machine)) + be32(uid) + be32(gid) + be32(0)
}

impl Auth {
    pub fn new_null() -> (auth: Self)
        ensures
            auth.flavor == AUTH_NONE,
            auth.body@ == Seq::<u8>::empty(),
    {
        Auth { flavor: AUTH_NONE, body: Vec::new() }
    }

    pub fn new_unix(machine: &str, uid: u32, gid: u32) -> (auth: Self)
        ensures
            auth.flavor == AUTH_SYS,
            auth.body@ == auth_sys_body(machine@, uid, gid),
    {
        let mut body: Vec<u8> = Vec::new();
        xdr_u32(&mut body, 0);
        xdr_string(&mut body, machine);
        xdr_u32(&mut body, uid);
        xdr_u32(&mut body, gid);
        xdr_u32(&mut body, 0);
        assert(body@ =~= auth_sys_body(machine@, uid, gid));
        Auth { flavor: AUTH_SYS, body }
    }
}

/// A call header. The transaction identifier is zero until the transport stamps the
/// message.
pub open spec fn call_header(
    program: u32,
    version: u32,
    procedure: u32,
    flavor: u32,
    credential: Seq<u8>,
) -> Seq<u8> {
    be32(0) + be32(RPC_CALL) + be32(RPC_VERSION) + be32(program) + be32(version) + be32(procedure)
        + be32(flavor) + opaque(credential) + be32(AUTH_NONE) + be32(0)
}

/// Appends a call header.
pub fn rpc_header(buf: &mut Vec<u8>, program: u32, version: u32, procedure: u32, auth: &Auth)
    ensures
        final(buf)@ == old(buf)@ + call_header(program, version, procedure, auth.flavor, auth.body@),
{
    xdr_u32(buf, 0);
    xdr_u32(buf, RPC_CALL);
    xdr_u32(buf, RPC_VERSION);
    xdr_u32(buf, program);
    xdr_u32(buf, version);
    xdr_u32(buf, procedure);
    xdr_u32(buf, auth.flavor);
    xdr_var_bytes(buf, &auth.body);
    xdr_u32(buf, AUTH_NONE);
    xdr_u32(buf, 0);
    assert(buf@ =~= old(buf)@ + call_header(
        program,
        version,
        procedure,
        auth.flavor,
        auth.body@,
    ));
}

/// A call holds no transaction ID yet, then that it is a call of the second version of RPC, the
/// program, its version and the procedure, the credential, and no verifier.
pub proof fn law_call_names_its_procedure(
    program: u32,
    version: u32,
    procedure: u32,
    flavor: u32,
    credential: Seq<u8>,
)
    requires
        credential.len() <= u32::MAX,
    ensures
        holds(
            call_header(program, version, procedure, flavor, credential),
            Fields::Start.word(0).word(0).word(2).word(program).word(version).word(procedure).word(
                flavor,
            ).counted(credential).word(0).word(0),
        ),
{
    broadcast use crate::wire::group_fields;

}

/// A system credential holds the machine, the user and the group, and no further groups.
pub proof fn law_credential_names_the_user(machine: Seq<char>, uid: u32, gid: u32)
    requires
        encode_utf8(machine).len() <= u32::MAX,
    ensures
        holds(
            auth_sys_body(machine, uid, gid),
            Fields::Start.word(0).counted(encode_utf8(machine)).word(uid).word(gid).word(0),
        ),
{
    broadcast use crate::wire::group_fields;

}


} // verus!
