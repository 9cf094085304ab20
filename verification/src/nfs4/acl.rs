//! Access control entries.

use bytes::Bytes;
use vstd::prelude::*;
use vstd::utf8::{decode_utf8, encode_utf8, valid_utf8};

use crate::buffer::{advance, as_slice, contents, get_u32, prefix, remaining};
use crate::error::{xdr_error, ErrorView, NfsError, Result};
use crate::text::{concat2, utf8_error_text, utf8_text};
use crate::wire::lemma_regroup;
use crate::xdr::{be32, opaque, padded, padded_len, tail_of, word};

verus! {

/// nfsace4.
#[derive(Clone, Debug)]
pub struct Nfsace4 {
    pub acetype: u32,
    pub flag: u32,
    pub access_mask: u32,
    pub who: String,
}

/// An entry as specifications see it.
pub struct AceView {
    pub acetype: u32,
    pub flag: u32,
    pub access_mask: u32,
    pub who: Seq<char>,
}

impl View for Nfsace4 {
    type V = AceView;

    open spec fn view(&self) -> AceView {
        AceView {
            acetype: self.acetype,
            flag: self.flag,
            access_mask: self.access_mask,
            who: self.who@,
        }
    }
}

/// The entry at the front of `s` and what follows it.
pub open spec fn ace(s: Seq<u8>) -> std::result::Result<(AceView, Seq<u8>), ErrorView> {
    if s.len() < 16 {
        Err(ErrorView::Xdr("nfsace4 truncated"@))
    } else {
        let len = word(s.skip(12)) as nat;
        let rest = s.skip(16);
        if rest.len() < padded(len) {
            Err(ErrorView::Xdr("nfsace4 who truncated"@))
        } else if !valid_utf8(rest.take(len as int)) {
            Err(ErrorView::Xdr("nfsace4 who is not UTF-8: "@ + utf8_error_text(rest.take(len as int))))
        } else {
            Ok(
                (
                    AceView {
                        acetype: word(s),
                        flag: word(s.skip(4)),
                        access_mask: word(s.skip(8)),
                        who: decode_utf8(rest.take(len as int)),
                    },
                    rest.skip(padded(len) as int),
                ),
            )
        }
    }
}

/// Reads the entry at the front of a buffer.
pub fn decode_nfsace4(buf: &mut Bytes) -> (entry: Result<Nfsace4>)
    ensures
        tail_of(contents(*final(buf)), contents(*old(buf))),
        match ace(contents(*old(buf))) {
            Ok((expected, rest)) => entry is Ok && entry->Ok_0@ == expected && contents(*final(buf))
                == rest,
            Err(expected) => entry is Err && entry->Err_0@ == expected,
        },
{
    broadcast use crate::xdr::group_tails;

    let ghost start = contents(*buf);
    if remaining(buf) < 16 {
        return Err(xdr_error("nfsace4 truncated"));
    }
    let acetype: u32 = get_u32(buf);
    let flag: u32 = get_u32(buf);
    let access_mask: u32 = get_u32(buf);
    let len: u32 = get_u32(buf);
    assert(start.skip(4).skip(4) =~= start.skip(8));
    assert(start.skip(8).skip(4) =~= start.skip(12));
    assert(start.skip(12).skip(4) =~= start.skip(16));
    assert(tail_of(contents(*buf), start));
    let padded: u64 = padded_len(len);
    if (remaining(buf) as u64) < padded {
        return Err(xdr_error("nfsace4 who truncated"));
    }
    let who = vstd::slice::slice_to_vec(as_slice(&prefix(buf, len as usize)));
    match utf8_text(who) {
        Ok(who) => {
            advance(buf, padded as usize);
            assert(tail_of(contents(*buf), start.skip(16)));
            Ok(Nfsace4 { acetype, flag, access_mask, who })
        },
        Err(error) => Err(NfsError::Xdr(concat2("nfsace4 who is not UTF-8: ", error.as_str()))),
    }
}

/// An access control entry as it is written.
pub open spec fn written_ace(entry: AceView) -> Seq<u8> {
    be32(entry.acetype) + (be32(entry.flag) + (be32(entry.access_mask) + opaque(
        encode_utf8(entry.who),
    )))
}

/// An access control entry is read back as it was written, whatever follows it.
pub proof fn law_written_ace_is_read_back(entry: AceView, tail: Seq<u8>)
    requires
        encode_utf8(entry.who).len() <= u32::MAX,
    ensures
        ace(written_ace(entry) + tail) == Ok::<(AceView, Seq<u8>), ErrorView>((entry, tail)),
{
    broadcast use {
        crate::wire::group_front,
        vstd::utf8::encode_utf8_valid_utf8,
        vstd::utf8::encode_utf8_decode_utf8,
    };

    let who = opaque(encode_utf8(entry.who));
    lemma_regroup(be32(entry.acetype), be32(entry.flag) + (be32(entry.access_mask) + who), tail);
    lemma_regroup(be32(entry.flag), be32(entry.access_mask) + who, tail);
    lemma_regroup(be32(entry.access_mask), who, tail);
}

} // verus!
