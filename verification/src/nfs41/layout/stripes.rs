//! How the bytes of a file are spread over data servers (RFC 8881 §13.4).

use vstd::arithmetic::div_mod::{
    lemma_div_is_ordered, lemma_fundamental_div_mod, lemma_fundamental_div_mod_converse,
    lemma_mod_bound,
};
use vstd::arithmetic::mul::{lemma_mul_inequality, lemma_mul_is_distributive_add_other_way};
use vstd::prelude::*;

verus! {

/// A part of a range that one data server holds.
#[derive(Debug, Clone, Copy, PartialEq, Eq, Structural)]
pub struct StripeChunk {
    pub ds_index: u32,
    pub file_offset: u64,
    pub ds_offset: u64,
    pub length: u32,
}

/// A [`StripeChunk`] as specifications see it.
pub struct ChunkView {
    pub ds_index: int,
    pub file_offset: int,
    pub ds_offset: int,
    pub length: int,
}

impl View for StripeChunk {
    type V = ChunkView;

    open spec fn view(&self) -> ChunkView {
        ChunkView {
            ds_index: self.ds_index as int,
            file_offset: self.file_offset as int,
            ds_offset: self.ds_offset as int,
            length: self.length as int,
        }
    }
}

/// How a layout spreads bytes.
pub struct Pattern {
    pub unit: int,
    pub dense: bool,
    pub first: int,
    pub servers: int,
    pub offset: int,
}

impl Pattern {
    pub open spec fn wf(self) -> bool {
        self.unit > 0 && self.servers > 0 && self.first >= 0 && self.offset >= 0
    }
}

/// The data server that holds the byte at an offset of the pattern.
pub open spec fn server_of(offset: int, unit: int, first: int, servers: int) -> int {
    (offset / unit + first) % servers
}

/// Where a data server holds the byte at an offset of the pattern. A dense layout leaves no
/// gaps; a sparse one keeps the offsets of the pattern.
pub open spec fn place_on(offset: int, unit: int, servers: int, dense: bool) -> int {
    if dense {
        offset / unit / servers * unit + offset % unit
    } else {
        offset
    }
}

/// Where the stripe unit of an offset ends.
pub open spec fn stripe_end(offset: int, unit: int) -> int {
    (offset / unit + 1) * unit
}

/// An offset of the file as an offset of the pattern.
pub open spec fn adjusted(offset: int, pattern: Pattern) -> int {
    if offset >= pattern.offset {
        offset - pattern.offset
    } else {
        0
    }
}

/// The smaller of two offsets.
pub open spec fn earlier(a: int, b: int) -> int {
    if a <= b {
        a
    } else {
        b
    }
}

/// Where the stripe unit of an offset of the file ends. Units are counted from the offset of
/// the pattern. The bytes in front of it belong to no unit; they are cut at the multiples of
/// the unit and where the pattern begins.
pub open spec fn unit_end(pos: int, pattern: Pattern) -> int {
    if pos >= pattern.offset {
        pattern.offset + stripe_end(pos - pattern.offset, pattern.unit)
    } else {
        earlier(pattern.offset, stripe_end(pos, pattern.unit))
    }
}

/// The chunk that begins at an offset of the file.
pub open spec fn chunk_at(pos: int, end: int, pattern: Pattern) -> ChunkView {
    let at = adjusted(pos, pattern);
    ChunkView {
        ds_index: server_of(at, pattern.unit, pattern.first, pattern.servers),
        file_offset: pos,
        ds_offset: place_on(at, pattern.unit, pattern.servers, pattern.dense),
        length: earlier(end, unit_end(pos, pattern)) - pos,
    }
}

/// A range of the file cut where stripe units end.
pub open spec fn chunks(pos: int, end: int, pattern: Pattern) -> Seq<ChunkView>
    decreases end - pos,
{
    if pos >= end || pattern.unit <= 0 || pos < 0 {
        Seq::empty()
    } else {
        proof {
            lemma_unit_end(pos, pattern);
        }
        seq![chunk_at(pos, end, pattern)] + chunks(
            earlier(end, unit_end(pos, pattern)),
            end,
            pattern,
        )
    }
}

/// The unit of an offset ends behind it.
pub proof fn lemma_unit_end(pos: int, pattern: Pattern)
    requires
        pattern.unit > 0,
    ensures
        pos < unit_end(pos, pattern),
{
    lemma_stripe_end(pos, pattern.unit);
    lemma_stripe_end(pos - pattern.offset, pattern.unit);
}

/// A stripe unit ends behind each of its bytes, and begins at or before each of them.
pub proof fn lemma_stripe_end(offset: int, unit: int)
    requires
        unit > 0,
    ensures
        stripe_end(offset, unit) - unit <= offset < stripe_end(offset, unit),
        stripe_end(offset, unit) - offset == unit - offset % unit,
{
    lemma_fundamental_div_mod(offset, unit);
    lemma_mod_bound(offset, unit);
    lemma_mul_is_distributive_add_other_way(unit, offset / unit, 1);
    assert(unit * (offset / unit) == (offset / unit) * unit) by (nonlinear_arith);
}

/// Which data server holds the byte at an offset of the pattern.
pub fn stripe_ds_index(offset: u64, stripe_unit: u32, first_stripe_index: u32, num_ds: u32) -> (index:
    u32)
    requires
        stripe_unit > 0,
        num_ds > 0,
        offset as int / stripe_unit as int + first_stripe_index <= u64::MAX,
    ensures
        index == server_of(
            offset as int,
            stripe_unit as int,
            first_stripe_index as int,
            num_ds as int,
        ),
        index < num_ds,
{
    let su: u64 = stripe_unit as u64;
    let stripe_num: u64 = offset / su;
    ((stripe_num + first_stripe_index as u64) % num_ds as u64) as u32
}

/// The place of a byte on its data server is not behind its offset.
proof fn lemma_place_on(offset: int, unit: int, servers: int)
    requires
        offset >= 0,
        unit > 0,
        servers > 0,
    ensures
        0 <= offset / unit / servers <= offset / unit,
        0 <= offset / unit / servers * unit <= offset,
        0 <= offset / unit / servers * unit + offset % unit <= offset,
{
    lemma_fundamental_div_mod(offset, unit);
    lemma_mod_bound(offset, unit);
    let stripe = offset / unit;
    assert(stripe >= 0) by (nonlinear_arith)
        requires
            offset >= 0,
            unit > 0,
            stripe == offset / unit,
    ;
    lemma_fundamental_div_mod(stripe, servers);
    lemma_mod_bound(stripe, servers);
    let held = stripe / servers;
    assert(0 <= held <= stripe) by (nonlinear_arith)
        requires
            stripe >= 0,
            servers > 0,
            held == stripe / servers,
    ;
    lemma_mul_inequality(held, stripe, unit);
    lemma_mul_inequality(0, held, unit);
    assert(stripe * unit == unit * stripe) by (nonlinear_arith);
}

/// Where a data server holds the byte at an offset of the pattern.
pub fn ds_offset(
    file_offset: u64,
    stripe_unit: u32,
    _first_stripe_index: u32,
    num_ds: u32,
    is_dense: bool,
) -> (offset: u64)
    requires
        stripe_unit > 0,
        num_ds > 0,
    ensures
        offset == place_on(file_offset as int, stripe_unit as int, num_ds as int, is_dense),
{
    if is_dense {
        let su: u64 = stripe_unit as u64;
        proof {
            lemma_place_on(file_offset as int, su as int, num_ds as int);
        }
        file_offset / su / num_ds as u64 * su + file_offset % su
    } else {
        file_offset
    }
}

/// Whether the offsets of a range fit the arithmetic on them.
pub open spec fn range_fits(offset: u64, count: u32, pattern: Pattern) -> bool {
    &&& offset + count <= u64::MAX
    &&& count > 0 ==> {
        let last = offset + count - 1;
        adjusted(last, pattern) / pattern.unit + pattern.first <= u64::MAX
    }
}

/// Cuts a range of the file where stripe units end and says which data server holds each
/// chunk, and where.
pub fn split_into_stripes(
    offset: u64,
    count: u32,
    stripe_unit: u32,
    is_dense: bool,
    first_stripe_index: u32,
    num_ds: u32,
    pattern_offset: u64,
) -> (result: Vec<StripeChunk>)
    requires
        stripe_unit > 0 && num_ds > 0 ==> range_fits(
            offset,
            count,
            (Pattern {
                unit: stripe_unit as int,
                dense: is_dense,
                first: first_stripe_index as int,
                servers: num_ds as int,
                offset: pattern_offset as int,
            }),
        ),
    ensures
        result@.map_values(|chunk: StripeChunk| chunk@) == (if stripe_unit == 0 || num_ds == 0 {
            Seq::empty()
        } else {
            chunks(
                offset as int,
                offset + count,
                (Pattern {
                    unit: stripe_unit as int,
                    dense: is_dense,
                    first: first_stripe_index as int,
                    servers: num_ds as int,
                    offset: pattern_offset as int,
                }),
            )
        }),
{
    let mut result: Vec<StripeChunk> = Vec::new();
    let ghost view = |chunk: StripeChunk| chunk@;
    if stripe_unit == 0 || num_ds == 0 {
        assert(result@.map_values(view) =~= Seq::empty());
        return result;
    }
    let ghost pattern = Pattern {
        unit: stripe_unit as int,
        dense: is_dense,
        first: first_stripe_index as int,
        servers: num_ds as int,
        offset: pattern_offset as int,
    };
    let su: u64 = stripe_unit as u64;
    let end: u64 = offset + count as u64;
    let mut pos: u64 = offset;
    assert(result@.map_values(view) =~= Seq::empty());
    while pos < end
        invariant
            offset <= pos <= end,
            end == offset + count,
            su == stripe_unit,
            stripe_unit > 0,
            num_ds > 0,
            pattern == (Pattern {
                unit: stripe_unit as int,
                dense: is_dense,
                first: first_stripe_index as int,
                servers: num_ds as int,
                offset: pattern_offset as int,
            }),
            range_fits(offset, count, pattern),
            view == (|chunk: StripeChunk| chunk@),
            chunks(offset as int, end as int, pattern) =~= result@.map_values(view) + chunks(
                pos as int,
                end as int,
                pattern,
            ),
        decreases end - pos,
    {
        let ghost last = end - 1;
        proof {
            lemma_stripe_end(pos as int, su as int);
            lemma_stripe_end(pos - pattern_offset, su as int);
            lemma_div_is_ordered(adjusted(pos as int, pattern), adjusted(last, pattern), su as int);
        }
        let at: u64 = if pos >= pattern_offset { pos - pattern_offset } else { 0 };
        let left: u64 = if pos >= pattern_offset {
            su - at % su
        } else if pattern_offset - pos <= su - pos % su {
            pattern_offset - pos
        } else {
            su - pos % su
        };
        assert(pos + left == unit_end(pos as int, pattern));
        let chunk_len: u32 = if end - pos <= left { (end - pos) as u32 } else { left as u32 };
        let ds_index: u32 = stripe_ds_index(at, stripe_unit, first_stripe_index, num_ds);
        let ds_off: u64 = ds_offset(at, stripe_unit, first_stripe_index, num_ds, is_dense);
        let chunk = StripeChunk { ds_index, file_offset: pos, ds_offset: ds_off, length: chunk_len };
        let ghost before = result@;
        result.push(chunk);
        assert(result@.map_values(view) =~= before.map_values(view).push(chunk@));
        assert(chunk@ == chunk_at(pos as int, end as int, pattern));
        pos = pos + chunk_len as u64;
    }
    assert(chunks(end as int, end as int, pattern) =~= Seq::empty());
    result
}

/// Whether a chunk stays within one stripe unit of the pattern, or in front of the pattern.
pub open spec fn within_unit(chunk: ChunkView, pattern: Pattern) -> bool {
    if chunk.file_offset >= pattern.offset {
        let at = adjusted(chunk.file_offset, pattern);
        at + chunk.length <= stripe_end(at, pattern.unit)
    } else {
        chunk.file_offset + chunk.length <= pattern.offset
    }
}

/// The chunks of a range follow one another without gaps from its start to its end. None of
/// them is empty, each lies on a data server, and none crosses the end of a stripe unit, as
/// counted from the offset of the pattern, nor the place where the pattern begins.
pub proof fn law_stripes_cover_the_range(pos: int, end: int, pattern: Pattern)
    requires
        pattern.wf(),
        0 <= pos < end,
    ensures
        ({
            let parts = chunks(pos, end, pattern);
            &&& parts.len() > 0
            &&& parts[0].file_offset == pos
            &&& parts.last().file_offset + parts.last().length == end
            &&& forall|i: int|
                0 <= i < parts.len() - 1 ==> (#[trigger] parts[i]).file_offset + parts[i].length
                    == parts[i + 1].file_offset
            &&& forall|i: int|
                #![trigger parts[i]]
                0 <= i < parts.len() ==> {
                    &&& parts[i].length > 0
                    &&& 0 <= parts[i].ds_index < pattern.servers
                    &&& within_unit(parts[i], pattern)
                }
        }),
    decreases end - pos,
{
    lemma_unit_end(pos, pattern);
    let next = earlier(end, unit_end(pos, pattern));
    let tail = chunks(next, end, pattern);
    let at = adjusted(pos, pattern);
    lemma_mod_bound(at / pattern.unit + pattern.first, pattern.servers);
    assert(chunks(pos, end, pattern) == seq![chunk_at(pos, end, pattern)] + tail);
    assert(within_unit(chunk_at(pos, end, pattern), pattern));
    if next < end {
        law_stripes_cover_the_range(next, end, pattern);
        let parts = chunks(pos, end, pattern);
        assert forall|i: int| 0 <= i < parts.len() - 1 implies (#[trigger] parts[i]).file_offset
            + parts[i].length == parts[i + 1].file_offset by {
            if i > 0 {
                assert(parts[i] == tail[i - 1]);
                assert(parts[i + 1] == tail[i]);
            }
        }
        assert forall|i: int|
            #![trigger parts[i]]
            0 <= i < parts.len() implies parts[i].length > 0 && 0 <= parts[i].ds_index
            < pattern.servers && within_unit(parts[i], pattern) by {
            if i > 0 {
                assert(parts[i] == tail[i - 1]);
            }
        }
        assert(parts.last() == tail.last());
    } else {
        assert(tail =~= Seq::empty());
    }
}

/// Each byte of a chunk behind the place where the pattern begins is on the data server that
/// the chunk names, as far behind the place of the chunk there as it is in the file.
pub proof fn law_chunks_hold_their_bytes(pos: int, end: int, pattern: Pattern, i: int, byte: int)
    requires
        pattern.wf(),
        0 <= pos < end,
        0 <= i < chunks(pos, end, pattern).len(),
        ({
            let chunk = chunks(pos, end, pattern)[i];
            pattern.offset <= chunk.file_offset <= byte < chunk.file_offset + chunk.length
        }),
    ensures
        ({
            let chunk = chunks(pos, end, pattern)[i];
            let at = adjusted(byte, pattern);
            &&& server_of(at, pattern.unit, pattern.first, pattern.servers) == chunk.ds_index
            &&& place_on(at, pattern.unit, pattern.servers, pattern.dense) == chunk.ds_offset + (
            byte - chunk.file_offset)
        }),
    decreases end - pos,
{
    lemma_unit_end(pos, pattern);
    let next = earlier(end, unit_end(pos, pattern));
    let tail = chunks(next, end, pattern);
    assert(chunks(pos, end, pattern) == seq![chunk_at(pos, end, pattern)] + tail);
    if i > 0 {
        assert(chunks(pos, end, pattern)[i] == tail[i - 1]);
        law_chunks_hold_their_bytes(next, end, pattern, i - 1, byte);
    } else {
        let at = pos - pattern.offset;
        let far = byte - pos;
        lemma_stripe_end(at, pattern.unit);
        lemma_fundamental_div_mod(at, pattern.unit);
        lemma_mod_bound(at, pattern.unit);
        lemma_fundamental_div_mod_converse(
            at + far,
            pattern.unit,
            at / pattern.unit,
            at % pattern.unit + far,
        );
    }
}

/// In a dense layout no two bytes share a place: bytes on one data server at one place are
/// the same byte.
pub proof fn law_dense_places_do_not_collide(a: int, b: int, unit: int, first: int, servers: int)
    requires
        unit > 0,
        servers > 0,
        a >= 0,
        b >= 0,
        server_of(a, unit, first, servers) == server_of(b, unit, first, servers),
        place_on(a, unit, servers, true) == place_on(b, unit, servers, true),
    ensures
        a == b,
{
    let (sa, sb) = (a / unit, b / unit);
    lemma_fundamental_div_mod(a, unit);
    lemma_fundamental_div_mod(b, unit);
    lemma_mod_bound(a, unit);
    lemma_mod_bound(b, unit);
    let (ka, kb) = (sa / servers, sb / servers);
    let place = ka * unit + a % unit;
    assert(ka * unit == unit * ka && kb * unit == unit * kb) by (nonlinear_arith);
    lemma_fundamental_div_mod_converse(place, unit, ka, a % unit);
    lemma_fundamental_div_mod_converse(place, unit, kb, b % unit);
    assert(ka == kb && a % unit == b % unit);
    lemma_fundamental_div_mod(sa, servers);
    lemma_fundamental_div_mod(sb, servers);
    lemma_mod_bound(sa, servers);
    lemma_mod_bound(sb, servers);
    lemma_fundamental_div_mod(sa + first, servers);
    lemma_fundamental_div_mod(sb + first, servers);
    let (qa, qb) = ((sa + first) / servers, (sb + first) / servers);
    let (ra, rb) = (sa % servers, sb % servers);
    assert(servers * qa - servers * qb == servers * (qa - qb)) by (nonlinear_arith);
    let d = qa - qb;
    assert(sa - sb == servers * d);
    assert(sa - sb == ra - rb);
    assert(d == 0) by (nonlinear_arith)
        requires
            servers > 0,
            -servers < servers * d < servers,
    ;
    assert(servers * d == 0) by (nonlinear_arith)
        requires
            d == 0,
    ;
    assert(sa == sb);
}

/// In a sparse layout a byte stands on its data server where it stands in the pattern.
pub proof fn law_sparse_places_are_offsets(a: int, unit: int, servers: int)
    ensures
        place_on(a, unit, servers, false) == a,
{
}

/// Stripes go round the servers: the first is on the server with the first index, the next on
/// the next server, and all bytes of one stripe are on one server.
pub proof fn law_stripes_go_round(offset: int, unit: int, first: int, servers: int, within: int)
    requires
        unit > 0,
        servers > 0,
        offset >= 0,
        first >= 0,
        0 <= within < unit - offset % unit,
    ensures
        offset < unit ==> server_of(offset, unit, first, servers) == first % servers,
        server_of(offset + unit, unit, first, servers) == (server_of(offset, unit, first, servers)
            + 1) % servers,
        server_of(offset + within, unit, first, servers) == server_of(
            offset,
            unit,
            first,
            servers,
        ),
        0 <= server_of(offset, unit, first, servers) < servers,
{
    if offset < unit {
        vstd::arithmetic::div_mod::lemma_basic_div(offset, unit);
    }
    vstd::arithmetic::div_mod::lemma_div_plus_one(offset, unit);
    vstd::arithmetic::div_mod::lemma_add_mod_noop_right(1, offset / unit + first, servers);
    lemma_within_stripe(offset, unit, within);
    lemma_mod_bound(offset / unit + first, servers);
}

proof fn lemma_within_stripe(offset: int, unit: int, within: int)
    requires
        unit > 0,
        offset >= 0,
        0 <= within < unit - offset % unit,
    ensures
        (offset + within) / unit == offset / unit,
        (offset + within) % unit == offset % unit + within,
{
    lemma_fundamental_div_mod(offset, unit);
    lemma_mod_bound(offset, unit);
    vstd::arithmetic::mul::lemma_mul_is_commutative(unit, offset / unit);
    lemma_fundamental_div_mod_converse(
        offset + within,
        unit,
        offset / unit,
        offset % unit + within,
    );
}

/// On a dense server the stripes stand without gaps: its first stripe starts its file, the next
/// stripe of the same server follows directly, and the bytes of a stripe keep their order.
pub proof fn law_dense_stripes_stand_without_gaps(
    offset: int,
    unit: int,
    servers: int,
    within: int,
)
    requires
        unit > 0,
        servers > 0,
        offset >= 0,
        0 <= within < unit - offset % unit,
    ensures
        offset < unit * servers ==> place_on(offset, unit, servers, true) == offset % unit,
        place_on(offset + unit * servers, unit, servers, true) == place_on(
            offset,
            unit,
            servers,
            true,
        ) + unit,
        place_on(offset + within, unit, servers, true) == place_on(offset, unit, servers, true)
            + within,
{
    let stripe = offset / unit;
    lemma_within_stripe(offset, unit, within);
    lemma_fundamental_div_mod(offset, unit);
    lemma_mod_bound(offset, unit);
    vstd::arithmetic::div_mod::lemma_div_pos_is_pos(offset, unit);
    let far = offset + unit * servers;
    assert(far == unit * (stripe + servers) + offset % unit) by (nonlinear_arith)
        requires
            far == offset + unit * servers,
            offset == unit * stripe + offset % unit,
    ;
    vstd::arithmetic::mul::lemma_mul_is_commutative(unit, stripe + servers);
    lemma_fundamental_div_mod_converse(
        far,
        unit,
        stripe + servers,
        offset % unit,
    );
    vstd::arithmetic::div_mod::lemma_div_plus_one(stripe, servers);
    assert((stripe / servers + 1) * unit == stripe / servers * unit + unit) by (nonlinear_arith);
    if offset < unit * servers {
        assert(stripe < servers) by (nonlinear_arith)
            requires
                offset == unit * stripe + offset % unit,
                offset % unit >= 0,
                offset < unit * servers,
                unit > 0,
        ;
        vstd::arithmetic::div_mod::lemma_basic_div(stripe, servers);
        assert(0 * unit == 0);
    }
}

/// Before the pattern starts, bytes are placed as its first byte is; from there on by how far
/// they are behind its start. A stripe ends where its last byte does.
pub proof fn law_pattern_starts_at_its_offset(pos: int, pattern: Pattern)
    requires
        pattern.wf(),
        pos >= 0,
    ensures
        pos < pattern.offset ==> adjusted(pos, pattern) == 0,
        pos >= pattern.offset ==> adjusted(pos, pattern) + pattern.offset == pos,
        pos >= pattern.offset ==> unit_end(pos, pattern) - pos == pattern.unit - adjusted(
            pos,
            pattern,
        ) % pattern.unit,
        pos < pattern.offset ==> unit_end(pos, pattern) <= pattern.offset,
{
    if pos >= pattern.offset {
        lemma_stripe_end(pos - pattern.offset, pattern.unit);
    }
}


} // verus!
