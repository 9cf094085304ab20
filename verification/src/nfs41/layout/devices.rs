//! What a server writes of a device, and in which order its addresses are tried.

use vstd::prelude::*;
use vstd::utf8::encode_utf8;

use crate::error::ErrorView;
use crate::net::{common_bits, ip_bytes, netaddr, prefix_len, same, AddrView, SocketAddr};
use crate::nfs41::layout::{
    affinity_rank, by_affinity, counted_bytes, degenerate, ds_addr_body, getdeviceinfo_response,
    in_a_row, items, lemma_items_in_a_row, multipath_item, netaddr_item, word_list, xdr_text,
    DeviceAddrs, DeviceView,
};
use crate::sort::{in_order, law_ordering_sorts_and_keeps_everything};
use crate::wire::lemma_regroup;
use crate::xdr::{be32, bitmap4, opaque, word, words};

verus! {

/// An address as a server writes it: the network and the address in it, as text.
pub type WrittenAddr = (Seq<char>, Seq<char>);

pub open spec fn written_addr(addr: WrittenAddr) -> Seq<u8> {
    opaque(encode_utf8(addr.0)) + opaque(encode_utf8(addr.1))
}

/// Whether an address can be written and is one.
pub open spec fn proper(addr: WrittenAddr) -> bool {
    &&& encode_utf8(addr.0).len() <= u32::MAX
    &&& encode_utf8(addr.1).len() <= u32::MAX
    &&& netaddr(addr.0, addr.1) is Ok
}

/// The address that a written one stands for.
pub open spec fn addr_of(addr: WrittenAddr) -> AddrView {
    netaddr(addr.0, addr.1)->Ok_0
}

/// The addresses of one data server, behind how many they are.
pub open spec fn written_paths(paths: Seq<WrittenAddr>) -> Seq<u8> {
    be32(paths.len() as u32) + in_a_row(paths.map_values(|addr: WrittenAddr| written_addr(addr)))
}

/// The body of a device: the stripes, and the data servers behind how many they are.
pub open spec fn written_body(indices: Seq<u32>, servers: Seq<Seq<WrittenAddr>>) -> Seq<u8> {
    bitmap4(indices) + (be32(servers.len() as u32) + in_a_row(
        servers.map_values(|paths: Seq<WrittenAddr>| written_paths(paths)),
    ))
}

proof fn lemma_text(text: Seq<char>, tail: Seq<u8>)
    requires
        encode_utf8(text).len() <= u32::MAX,
    ensures
        xdr_text(opaque(encode_utf8(text)) + tail) == Ok::<(Seq<char>, Seq<u8>), ErrorView>(
            (text, tail),
        ),
{
    broadcast use {
        crate::wire::group_front,
        vstd::utf8::encode_utf8_valid_utf8,
        vstd::utf8::encode_utf8_decode_utf8,
    };

}

/// An address is read back as it was written, whatever follows it.
pub proof fn law_written_address_is_read_back(addr: WrittenAddr, tail: Seq<u8>)
    requires
        proper(addr),
    ensures
        netaddr_item(written_addr(addr) + tail) == Ok::<(AddrView, Seq<u8>), ErrorView>(
            (addr_of(addr), tail),
        ),
{
    lemma_regroup(opaque(encode_utf8(addr.0)), opaque(encode_utf8(addr.1)), tail);
    lemma_text(addr.0, opaque(encode_utf8(addr.1)) + tail);
    lemma_text(addr.1, tail);
}

/// The addresses of a data server are read back in their order.
pub proof fn law_written_paths_are_read_back(paths: Seq<WrittenAddr>, tail: Seq<u8>)
    requires
        paths.len() <= 256,
        forall|i: int| 0 <= i < paths.len() ==> proper(#[trigger] paths[i]),
    ensures
        multipath_item(written_paths(paths) + tail) == Ok::<(Seq<AddrView>, Seq<u8>), ErrorView>(
            (paths.map_values(|addr: WrittenAddr| addr_of(addr)), tail),
        ),
{
    let parts = paths.map_values(|addr: WrittenAddr| written_addr(addr));
    let values = paths.map_values(|addr: WrittenAddr| addr_of(addr));
    lemma_paths(paths, tail);
    lemma_regroup(be32(paths.len() as u32), in_a_row(parts), tail);
    lemma_multipath_of(paths.len() as u32, in_a_row(parts) + tail, values, tail);
}

proof fn lemma_paths(paths: Seq<WrittenAddr>, tail: Seq<u8>)
    requires
        forall|i: int| 0 <= i < paths.len() ==> proper(#[trigger] paths[i]),
    ensures
        items(
            |s: Seq<u8>| netaddr_item(s),
            in_a_row(paths.map_values(|addr: WrittenAddr| written_addr(addr))) + tail,
            paths.len(),
        ) == Ok::<(Seq<AddrView>, Seq<u8>), ErrorView>(
            (paths.map_values(|addr: WrittenAddr| addr_of(addr)), tail),
        ),
{
    let parts = paths.map_values(|addr: WrittenAddr| written_addr(addr));
    let values = paths.map_values(|addr: WrittenAddr| addr_of(addr));
    let item = |s: Seq<u8>| netaddr_item(s);
    assert forall|i: int, after: Seq<u8>| 0 <= i < parts.len() implies #[trigger] item(
        parts[i] + after,
    ) == Ok::<(AddrView, Seq<u8>), ErrorView>((values[i], after)) by {
        law_written_address_is_read_back(paths[i], after);
    }
    lemma_items_in_a_row(item, values, parts, tail);
}

proof fn lemma_multipath_of(count: u32, body: Seq<u8>, values: Seq<AddrView>, tail: Seq<u8>)
    requires
        count <= 256,
        items(|s: Seq<u8>| netaddr_item(s), body, count as nat) == Ok::<
            (Seq<AddrView>, Seq<u8>),
            ErrorView,
        >((values, tail)),
    ensures
        multipath_item(be32(count) + body) == Ok::<(Seq<AddrView>, Seq<u8>), ErrorView>(
            (values, tail),
        ),
{
    crate::xdr::lemma_word_of_be32(count, body);
}

proof fn lemma_body_head(indices: Seq<u32>, count: u32, rest: Seq<u8>)
    requires
        indices.len() <= 4096,
    ensures
        ({
            let s = bitmap4(indices) + (be32(count) + rest);
            &&& s.len() >= 8 + 4 * indices.len()
            &&& word(s) == indices.len()
            &&& s.skip(4).len() >= 4 * indices.len()
            &&& s.skip(4).skip(4int * indices.len()) == be32(count) + rest
            &&& word(be32(count) + rest) == count
            &&& (be32(count) + rest).skip(4) == rest
            &&& word_list(s.skip(4), indices.len()) == indices
        }),
{
    broadcast use crate::wire::group_front;

    let s = bitmap4(indices) + (be32(count) + rest);
    assert(s.skip(4) == words(indices) + (be32(count) + rest));
    assert forall|i: int| 0 <= i < indices.len() implies word(s.skip(4).skip(4 * i))
        == indices[i] by {
        crate::wire::lemma_listed_word(indices, be32(count) + rest, i);
    }
    assert(word_list(s.skip(4), indices.len()) =~= indices);
}

/// A device is read back as it was written: which server holds each stripe, and the addresses of
/// each server in their order.
pub proof fn law_written_device_is_read_back(
    indices: Seq<u32>,
    servers: Seq<Seq<WrittenAddr>>,
    tail: Seq<u8>,
)
    requires
        indices.len() <= 4096,
        servers.len() <= 4096,
        forall|k: int| 0 <= k < servers.len() ==> (#[trigger] servers[k]).len() <= 256,
        forall|k: int, i: int|
            0 <= k < servers.len() && 0 <= i < servers[k].len() ==> proper(
                #[trigger] servers[k][i],
            ),
        written_body(indices, servers).len() <= u32::MAX,
    ensures
        ({
            let read = getdeviceinfo_response(
                be32(1) + (opaque(written_body(indices, servers)) + tail),
            );
            &&& read is Ok
            &&& read->Ok_0.1 == tail
            &&& read->Ok_0.0.stripe_indices == indices
            &&& read->Ok_0.0.ds_addrs.len() == servers.len()
            &&& forall|k: int|
                #![trigger read->Ok_0.0.ds_addrs[k]]
                0 <= k < servers.len() ==> {
                    &&& read->Ok_0.0.ds_addrs[k].len() == servers[k].len()
                    &&& forall|i: int|
                        0 <= i < servers[k].len() ==> #[trigger] read->Ok_0.0.ds_addrs[k][i]
                            == addr_of(servers[k][i])
                }
        }),
{
    let body = written_body(indices, servers);
    lemma_written_body(indices, servers);
    lemma_device_of(body, tail);
    let addrs = servers.map_values(
        |paths: Seq<WrittenAddr>| paths.map_values(|addr: WrittenAddr| addr_of(addr)),
    );
    assert forall|k: int| 0 <= k < servers.len() implies (#[trigger] addrs[k]).len()
        == servers[k].len() by {
    }
    assert forall|k: int, i: int| 0 <= k < servers.len() && 0 <= i < servers[k].len() implies
        #[trigger] addrs[k][i] == addr_of(servers[k][i]) by {
    }
}

proof fn lemma_device_of(body: Seq<u8>, tail: Seq<u8>)
    requires
        body.len() <= u32::MAX,
    ensures
        ds_addr_body(body) is Ok ==> getdeviceinfo_response(be32(1) + (opaque(body) + tail)) == Ok::<
            (DeviceAddrs, Seq<u8>),
            ErrorView,
        >((ds_addr_body(body)->Ok_0, tail)),
{
    let s = be32(1) + (opaque(body) + tail);
    assert({
        &&& s.len() >= 4
        &&& word(s) == 1
        &&& s.skip(4) == opaque(body) + tail
        &&& counted_bytes(
            opaque(body) + tail,
            "GETDEVICEINFO da_addr_body length truncated"@,
            "GETDEVICEINFO da_addr_body truncated"@,
        ) == Ok::<(Seq<u8>, Seq<u8>), ErrorView>((body, tail))
    }) by {
        broadcast use crate::wire::group_front;

    }
}

proof fn lemma_written_body(indices: Seq<u32>, servers: Seq<Seq<WrittenAddr>>)
    requires
        indices.len() <= 4096,
        servers.len() <= 4096,
        forall|k: int| 0 <= k < servers.len() ==> (#[trigger] servers[k]).len() <= 256,
        forall|k: int, i: int|
            0 <= k < servers.len() && 0 <= i < servers[k].len() ==> proper(
                #[trigger] servers[k][i],
            ),
    ensures
        ds_addr_body(written_body(indices, servers)) == Ok::<DeviceAddrs, ErrorView>(
            DeviceAddrs {
                stripe_indices: indices,
                ds_addrs: servers.map_values(
                    |paths: Seq<WrittenAddr>| paths.map_values(|addr: WrittenAddr| addr_of(addr)),
                ),
            },
        ),
{
    let parts = servers.map_values(|paths: Seq<WrittenAddr>| written_paths(paths));
    let values = servers.map_values(
        |paths: Seq<WrittenAddr>| paths.map_values(|addr: WrittenAddr| addr_of(addr)),
    );
    let item = |s: Seq<u8>| multipath_item(s);
    assert forall|k: int, after: Seq<u8>| 0 <= k < parts.len() implies #[trigger] item(
        parts[k] + after,
    ) == Ok::<(Seq<AddrView>, Seq<u8>), ErrorView>((values[k], after)) by {
        assert forall|i: int| 0 <= i < servers[k].len() implies proper(
            #[trigger] servers[k][i],
        ) by {
        }
        law_written_paths_are_read_back(servers[k], after);
    }
    lemma_items_in_a_row(item, values, parts, Seq::empty());
    assert(in_a_row(parts) + Seq::<u8>::empty() =~= in_a_row(parts));
    lemma_body_head(indices, servers.len() as u32, in_a_row(parts));
}

/// A device of another layout type is refused.
pub proof fn law_other_devices_are_refused(layout_type: u32, rest: Seq<u8>)
    requires
        layout_type != 1,
    ensures
        getdeviceinfo_response(be32(layout_type) + rest) is Err,
{
    crate::xdr::lemma_word_of_be32(layout_type, rest);
}

/// The server itself is tried before all other addresses, then those of its own family before
/// the others, and among these the ones that share more leading bits with it.
pub proof fn law_near_addresses_come_first(a: SocketAddr, b: SocketAddr, server: SocketAddr)
    requires
        ip_bytes(a.ip).len() == ip_bytes(server.ip).len() || (a.ip is V4) != (server.ip is V4),
        ip_bytes(b.ip).len() == ip_bytes(server.ip).len() || (b.ip is V4) != (server.ip is V4),
        0 < ip_bytes(server.ip).len() <= 16,
    ensures
        same(a, server) && !same(b, server) ==> affinity_rank(a, server) < affinity_rank(b, server),
        same(a, server) == same(b, server) && (a.ip is V4) == (server.ip is V4) && (b.ip is V4) != (
        server.ip is V4) ==> affinity_rank(a, server) < affinity_rank(b, server),
        same(a, server) == same(b, server) && (a.ip is V4) == (b.ip is V4) ==> (affinity_rank(
            a,
            server,
        ) < affinity_rank(b, server) <==> prefix_len(a, server) > prefix_len(b, server)),
{
    lemma_prefix_is_bounded(a, server);
    lemma_prefix_is_bounded(b, server);
    if (a.ip is V4) == (server.ip is V4) && prefix_len(a, server) == 0 && (b.ip is V4) != (
    server.ip is V4) {
        assert(affinity_rank(a, server) < affinity_rank(b, server) || same(a, server) != same(
            b,
            server,
        ));
    }
}

proof fn lemma_prefix_is_bounded(a: SocketAddr, server: SocketAddr)
    requires
        ip_bytes(a.ip).len() == ip_bytes(server.ip).len() || (a.ip is V4) != (server.ip is V4),
        0 < ip_bytes(server.ip).len() <= 16,
    ensures
        0 <= prefix_len(a, server) <= 128,
        same(a, server) ==> prefix_len(a, server) == 8 * ip_bytes(server.ip).len(),
{
    if (a.ip is V4) == (server.ip is V4) {
        crate::spelling::law_common_bits_agree(ip_bytes(a.ip), ip_bytes(server.ip), 0);
        if same(a, server) {
            assert(a@.ip == server@.ip);
            lemma_all_bits_agree(ip_bytes(a.ip));
        }
    }
}

proof fn lemma_all_bits_agree(a: Seq<u8>)
    ensures
        common_bits(a, a) == 8 * a.len(),
    decreases a.len(),
{
    if a.len() > 0 {
        lemma_all_bits_agree(a.skip(1));
    }
}

/// Addresses are tried in the order of their rank, each of them once.
pub proof fn law_addresses_are_tried_by_rank(paths: Seq<SocketAddr>, server: SocketAddr)
    ensures
        by_affinity(paths, server).len() == paths.len(),
        by_affinity(paths, server).to_multiset() == paths.to_multiset(),
        forall|i: int, j: int|
            0 <= i < j < paths.len() ==> affinity_rank(
                #[trigger] by_affinity(paths, server)[i],
                server,
            ) <= affinity_rank(#[trigger] by_affinity(paths, server)[j], server),
{
    let key = |addr: SocketAddr| affinity_rank(addr, server);
    law_ordering_sorts_and_keeps_everything(paths, key);
    assert(in_order(by_affinity(paths, server), key));
    assert forall|i: int, j: int| 0 <= i < j < paths.len() implies affinity_rank(
        #[trigger] by_affinity(paths, server)[i],
        server,
    ) <= affinity_rank(#[trigger] by_affinity(paths, server)[j], server) by {
        assert(key(by_affinity(paths, server)[i]) <= key(by_affinity(paths, server)[j]));
    }
}

/// A device adds nothing just where it has data servers and the first address of each is the
/// server itself.
pub proof fn law_degenerate_device_leads_back(device: DeviceView, server: SocketAddr, i: int)
    requires
        0 <= i < device.ds_addrs.len(),
    ensures
        device.ds_addrs[i].len() == 0 ==> !degenerate(device, server),
        device.ds_addrs[i].len() > 0 && device.ds_addrs[i][0]@ != server@ ==> !degenerate(
            device,
            server,
        ),
        device.ds_addrs.len() == 1 && device.ds_addrs[0].len() > 0 && device.ds_addrs[0][0]@
            == server@ ==> degenerate(device, server),
{
}

} // verus!
