//! Addresses.

use vstd::prelude::*;
use vstd::string::{StrSliceExecFns, StringExecFns};

use crate::error::{ErrorView, NfsError, Result};
use crate::table::equal_bytes;
use crate::text::{characters, concat2, decimal, push_decimal, same_text};
use crate::xdr::{append_bytes, be32, lemma_word_of_be32, xdr_u32};

verus! {

/// An IP address as its bytes, in network order.
#[derive(Clone, Copy, Debug, PartialEq, Eq)]
pub enum IpAddr {
    V4([u8; 4]),
    V6([u8; 16]),
}

/// An address with a port. An IPv6 address has flow information and a scope besides; of an
/// IPv4 address both are zero.
#[derive(Clone, Copy, Debug, PartialEq, Eq)]
pub struct SocketAddr {
    pub ip: IpAddr,
    pub port: u16,
    pub flowinfo: u32,
    pub scope_id: u32,
}

/// The bytes of an address.
pub open spec fn ip_bytes(ip: IpAddr) -> Seq<u8> {
    match ip {
        IpAddr::V4(bytes) => bytes@,
        IpAddr::V6(bytes) => bytes@,
    }
}

/// An address as specifications see it: its family, its bytes, its port, its flow information
/// and its scope.
#[verifier::ext_equal]
pub struct AddrView {
    pub v4: bool,
    pub ip: Seq<u8>,
    pub port: u16,
    pub flowinfo: u32,
    pub scope_id: u32,
}

impl View for SocketAddr {
    type V = AddrView;

    open spec fn view(&self) -> AddrView {
        AddrView {
            v4: self.ip is V4,
            ip: ip_bytes(self.ip),
            port: self.port,
            flowinfo: self.flowinfo,
            scope_id: self.scope_id,
        }
    }
}

impl SocketAddr {
    /// An address without flow information and scope.
    pub fn new(ip: IpAddr, port: u16) -> (addr: Self)
        ensures
            addr == (SocketAddr { ip, port, flowinfo: 0, scope_id: 0 }),
    {
        SocketAddr { ip, port, flowinfo: 0, scope_id: 0 }
    }
}

/// Whether two addresses are the same.
pub open spec fn same(left: SocketAddr, right: SocketAddr) -> bool {
    left@ == right@
}

pub fn same_addr(left: &SocketAddr, right: &SocketAddr) -> (result: bool)
    ensures
        result == same(*left, *right),
{
    if left.port != right.port || left.flowinfo != right.flowinfo || left.scope_id
        != right.scope_id {
        return false;
    }
    match (&left.ip, &right.ip) {
        (IpAddr::V4(a), IpAddr::V4(b)) => equal_bytes(a, b),
        (IpAddr::V6(a), IpAddr::V6(b)) => equal_bytes(a, b),
        _ => false,
    }
}

/// An address as a key of a table.
pub open spec fn key_of(addr: AddrView) -> Seq<u8> {
    seq![
        if addr.v4 {
            4u8
        } else {
            6u8
        },
        (addr.port / 256) as u8,
        (addr.port % 256) as u8,
    ] + (be32(addr.flowinfo) + (be32(addr.scope_id) + addr.ip))
}

/// Different addresses have different keys.
pub proof fn law_keys_tell_addresses_apart(a: AddrView, b: AddrView)
    requires
        key_of(a) == key_of(b),
    ensures
        a == b,
{
    let (x, y) = (key_of(a), key_of(b));
    assert(x[0] == y[0]);
    assert(x[1] == y[1]);
    assert(x[2] == y[2]);
    assert(a.port == (a.port / 256) * 256 + a.port % 256);
    assert(b.port == (b.port / 256) * 256 + b.port % 256);
    assert(x.skip(3) =~= be32(a.flowinfo) + (be32(a.scope_id) + a.ip));
    assert(y.skip(3) =~= be32(b.flowinfo) + (be32(b.scope_id) + b.ip));
    lemma_word_of_be32(a.flowinfo, be32(a.scope_id) + a.ip);
    lemma_word_of_be32(b.flowinfo, be32(b.scope_id) + b.ip);
    lemma_word_of_be32(a.scope_id, a.ip);
    lemma_word_of_be32(b.scope_id, b.ip);
}

pub fn addr_key(addr: &SocketAddr) -> (key: Vec<u8>)
    ensures
        key@ == key_of(addr@),
{
    let mut key: Vec<u8> = Vec::new();
    key.push(
        match &addr.ip {
            IpAddr::V4(_) => 4u8,
            IpAddr::V6(_) => 6u8,
        },
    );
    key.push((addr.port / 256) as u8);
    key.push((addr.port % 256) as u8);
    xdr_u32(&mut key, addr.flowinfo);
    xdr_u32(&mut key, addr.scope_id);
    match &addr.ip {
        IpAddr::V4(bytes) => append_bytes(&mut key, bytes),
        IpAddr::V6(bytes) => append_bytes(&mut key, bytes),
    }
    assert(key@ =~= key_of(addr@));
    key
}

/// How many of the high bits of a byte are zero.
pub open spec fn zero_bits(byte: u8) -> nat {
    if byte >= 128 {
        0
    } else if byte >= 64 {
        1
    } else if byte >= 32 {
        2
    } else if byte >= 16 {
        3
    } else if byte >= 8 {
        4
    } else if byte >= 4 {
        5
    } else if byte >= 2 {
        6
    } else if byte >= 1 {
        7
    } else {
        8
    }
}

/// How many bits two byte strings of one length begin with alike.
pub open spec fn common_bits(a: Seq<u8>, b: Seq<u8>) -> nat
    decreases a.len(),
{
    if a.len() == 0 {
        0
    } else if a[0] != b[0] {
        zero_bits(a[0] ^ b[0])
    } else {
        8 + common_bits(a.skip(1), b.skip(1))
    }
}

fn count_common_bits(a: &[u8], b: &[u8]) -> (bits: u32)
    requires
        a@.len() == b@.len() <= 16,
    ensures
        bits == common_bits(a@, b@),
        bits <= 8 * a@.len(),
{
    let mut i: usize = 0;
    assert(a@.skip(0) =~= a@);
    assert(b@.skip(0) =~= b@);
    while i < a.len()
        invariant
            i <= a@.len(),
            a@.len() == b@.len() <= 16,
            common_bits(a@, b@) == 8 * i + common_bits(a@.skip(i as int), b@.skip(i as int)),
        decreases a.len() - i,
    {
        if a[i] != b[i] {
            let x: u8 = a[i] ^ b[i];
            let zeros: u32 = if x >= 128 {
                0
            } else if x >= 64 {
                1
            } else if x >= 32 {
                2
            } else if x >= 16 {
                3
            } else if x >= 8 {
                4
            } else if x >= 4 {
                5
            } else if x >= 2 {
                6
            } else if x >= 1 {
                7
            } else {
                8
            };
            return 8 * (i as u32) + zeros;
        }
        assert(a@.skip(i as int).skip(1) =~= a@.skip(i + 1));
        assert(b@.skip(i as int).skip(1) =~= b@.skip(i + 1));
        i += 1;
    }
    8 * (i as u32)
}

/// How many bits two addresses begin with alike; none where their families differ.
pub open spec fn prefix_len(a: SocketAddr, b: SocketAddr) -> nat {
    if (a.ip is V4) == (b.ip is V4) {
        common_bits(ip_bytes(a.ip), ip_bytes(b.ip))
    } else {
        0
    }
}

pub fn addr_prefix_len(a: &SocketAddr, b: &SocketAddr) -> (bits: u32)
    ensures
        bits == prefix_len(*a, *b),
        bits <= 128,
{
    match (&a.ip, &b.ip) {
        (IpAddr::V4(x), IpAddr::V4(y)) => count_common_bits(x, y),
        (IpAddr::V6(x), IpAddr::V6(y)) => count_common_bits(x, y),
        _ => 0,
    }
}

/// The bytes in base ten with dots between them.
pub open spec fn dotted(bytes: Seq<u8>) -> Seq<char>
    decreases bytes.len(),
{
    if bytes.len() == 0 {
        Seq::empty()
    } else if bytes.len() == 1 {
        decimal(bytes[0] as nat)
    } else {
        dotted(bytes.drop_last()) + "."@ + decimal(bytes.last() as nat)
    }
}

/// The universal address of RFC 5665: the bytes of the address and of the port with dots
/// between them.
pub fn universal_address(ip: [u8; 4], port: u16) -> (text: String)
    ensures
        text@ == dotted(ip@ + seq![(port / 256) as u8, (port % 256) as u8]),
{
    let bytes: [u8; 6] = [ip[0], ip[1], ip[2], ip[3], (port / 256) as u8, (port % 256) as u8];
    let ghost all = ip@ + seq![(port / 256) as u8, (port % 256) as u8];
    assert(bytes@ =~= all);
    let mut text = String::new();
    let mut i: usize = 0;
    assert(all.take(0) =~= Seq::empty());
    assert(text@ =~= dotted(all.take(0)));
    while i < 6
        invariant
            i <= 6,
            bytes@ == all,
            all.len() == 6,
            text@ == dotted(all.take(i as int)),
        decreases 6 - i,
    {
        if i > 0 {
            text.append(".");
        }
        push_decimal(&mut text, bytes[i] as u64);
        i += 1;
        assert(all.take(i as int).drop_last() =~= all.take(i - 1));
        assert(text@ =~= dotted(all.take(i as int)));
    }
    assert(all.take(6) =~= all);
    text
}


/// What a digit is worth.
pub open spec fn digit_value(c: char, radix: nat) -> Option<nat> {
    let value = if '0' <= c <= '9' {
        c as nat - '0' as nat
    } else if 'a' <= c <= 'f' {
        c as nat - 'a' as nat + 10
    } else if 'A' <= c <= 'F' {
        c as nat - 'A' as nat + 10
    } else {
        16
    };
    if value < radix {
        Some(value as nat)
    } else {
        None
    }
}

/// The number that digits stand for.
pub open spec fn number(s: Seq<char>, radix: nat) -> Option<nat>
    decreases s.len(),
{
    if s.len() == 0 {
        Some(0)
    } else {
        match (number(s.drop_last(), radix), digit_value(s.last(), radix)) {
            (Some(high), Some(low)) => Some(high * radix + low),
            _ => None,
        }
    }
}

fn read_digit(c: char, radix: u32) -> (value: Option<u32>)
    requires
        radix == 10 || radix == 16,
    ensures
        match digit_value(c, radix as nat) {
            Some(expected) => value == Some(expected as u32) && expected < radix,
            None => value is None,
        },
{
    let value: u32 = if '0' <= c && c <= '9' {
        c as u32 - '0' as u32
    } else if 'a' <= c && c <= 'f' {
        c as u32 - 'a' as u32 + 10
    } else if 'A' <= c && c <= 'F' {
        c as u32 - 'A' as u32 + 10
    } else {
        16
    };
    if value < radix {
        Some(value)
    } else {
        None
    }
}

/// Once digits stand for more than a limit, more digits do too.
proof fn lemma_number_grows(s: Seq<char>, radix: nat, i: int, limit: nat)
    requires
        radix >= 1,
        0 <= i <= s.len(),
        match number(s.take(i), radix) {
            Some(n) => n > limit,
            None => true,
        },
    ensures
        match number(s, radix) {
            Some(n) => n > limit,
            None => true,
        },
    decreases s.len() - i,
{
    if i < s.len() {
        let next = s.take(i + 1);
        assert(next.drop_last() =~= s.take(i));
        if number(s.take(i), radix) is Some && digit_value(next.last(), radix) is Some {
            let n = number(s.take(i), radix)->Some_0;
            assert(n * radix >= n) by (nonlinear_arith)
                requires
                    radix >= 1,
            ;
        }
        lemma_number_grows(s, radix, i + 1, limit);
    } else {
        assert(s.take(i) =~= s);
    }
}

/// The number that the digits from `from` to `to` stand for, unless it is over the limit.
fn read_number(chars: &[char], from: usize, to: usize, radix: u32, limit: u32) -> (value: Option<
    u32,
>)
    requires
        from <= to <= chars@.len(),
        radix == 10 || radix == 16,
        limit <= 0xffff,
    ensures
        ({
            let n = number(chars@.subrange(from as int, to as int), radix as nat);
            if n is Some && n->Some_0 <= limit {
                value == Some(n->Some_0 as u32)
            } else {
                value is None
            }
        }),
{
    let ghost s = chars@.subrange(from as int, to as int);
    let mut i: usize = from;
    let mut value: u32 = 0;
    assert(s.take(0) =~= Seq::empty());
    while i < to
        invariant
            from <= i <= to <= chars@.len(),
            radix == 10 || radix == 16,
            limit <= 0xffff,
            value <= limit,
            s == chars@.subrange(from as int, to as int),
            number(s.take(i - from), radix as nat) == Some(value as nat),
        decreases to - i,
    {
        let ghost at = i - from;
        assert(s.take(at + 1).drop_last() =~= s.take(at));
        assert(s.take(at + 1).last() == chars@[i as int]);
        match read_digit(chars[i], radix) {
            Some(digit) => {
                value = value * radix + digit;
            },
            None => {
                proof {
                    lemma_number_grows(s, radix as nat, at + 1, limit as nat);
                }
                return None;
            },
        }
        if value > limit {
            proof {
                lemma_number_grows(s, radix as nat, at + 1, limit as nat);
            }
            return None;
        }
        i += 1;
    }
    assert(s.take(to - from) =~= s);
    Some(value)
}

/// A number of at most 255 in base ten; a plus sign and zeros may stand in front.
pub open spec fn octet(s: Seq<char>) -> Option<u8> {
    let digits = if s.len() > 1 && s[0] == '+' {
        s.skip(1)
    } else {
        s
    };
    match number(digits, 10) {
        Some(n) => if digits.len() > 0 && n <= 255 {
            Some(n as u8)
        } else {
            None
        },
        None => None,
    }
}

fn read_octet(text: &str, chars: &[char], from: usize, to: usize) -> (value: Result<u8>)
    requires
        text@ == chars@,
        from <= to <= chars@.len(),
    ensures
        ({
            let s = text@.subrange(from as int, to as int);
            match octet(s) {
                Some(expected) => value is Ok && value->Ok_0 == expected,
                None => value is Err && value->Err_0@ == ErrorView::Xdr(
                    "invalid address octet: "@ + s,
                ),
            }
        }),
{
    let ghost s = text@.subrange(from as int, to as int);
    let start: usize = if to - from > 1 && chars[from] == '+' { from + 1 } else { from };
    assert(s.skip(1) =~= text@.subrange(from + 1, to as int) || to == from);
    if start < to {
        if let Some(value) = read_number(chars, start, to, 10, 255) {
            return Ok(value as u8);
        }
    }
    Err(NfsError::Xdr(concat2("invalid address octet: ", text.substring_char(from, to))))
}

/// The parts of a text between separators.
pub open spec fn fields(s: Seq<char>, separator: char) -> Seq<Seq<char>>
    decreases s.len(),
{
    if s.len() == 0 {
        seq![Seq::empty()]
    } else {
        let before = fields(s.drop_last(), separator);
        if s.last() == separator {
            before.push(Seq::empty())
        } else {
            before.drop_last().push(before.last().push(s.last()))
        }
    }
}

/// Where a part of a text begins and ends.
#[derive(Clone, Copy)]
struct Span {
    from: usize,
    to: usize,
}

/// Where the parts of a text between separators stand. `base` is where the text begins
/// among the characters.
fn split_fields(chars: &[char], base: usize, end: usize, separator: char) -> (spans: Vec<Span>)
    requires
        base <= end <= chars@.len(),
    ensures
        spans@.len() == fields(chars@.subrange(base as int, end as int), separator).len() >= 1,
        forall|k: int|
            0 <= k < spans@.len() ==> base <= (#[trigger] spans@[k]).from <= spans@[k].to <= end
                && chars@.subrange(spans@[k].from as int, spans@[k].to as int) == fields(
                chars@.subrange(base as int, end as int),
                separator,
            )[k],
{
    let ghost s = chars@.subrange(base as int, end as int);
    let mut spans: Vec<Span> = Vec::new();
    let mut from: usize = base;
    let mut i: usize = base;
    assert(s.take(0) =~= Seq::empty());
    assert(chars@.subrange(base as int, base as int) =~= Seq::empty());
    while i < end
        invariant
            base <= from <= i <= end <= chars@.len(),
            s == chars@.subrange(base as int, end as int),
            fields(s.take(i - base), separator).len() == spans@.len() + 1,
            fields(s.take(i - base), separator).last() == chars@.subrange(from as int, i as int),
            forall|k: int|
                0 <= k < spans@.len() ==> base <= (#[trigger] spans@[k]).from <= spans@[k].to <= end
                    && chars@.subrange(spans@[k].from as int, spans@[k].to as int) == fields(
                    s.take(i - base),
                    separator,
                )[k],
        decreases end - i,
    {
        let ghost here = s.take(i - base);
        let ghost next = s.take(i - base + 1);
        assert(next.drop_last() =~= here);
        assert(next.last() == chars@[i as int]);
        if chars[i] == separator {
            spans.push(Span { from, to: i });
            from = i + 1;
            assert(chars@.subrange(from as int, i + 1) =~= Seq::empty());
        } else {
            assert(chars@.subrange(from as int, i + 1) =~= chars@.subrange(
                from as int,
                i as int,
            ).push(chars@[i as int]));
        }
        i += 1;
    }
    assert(s.take(end - base) =~= s);
    spans.push(Span { from, to: end });
    spans
}

/// Where a character stands last.
pub open spec fn last_place(s: Seq<char>, c: char) -> Option<nat>
    decreases s.len(),
{
    if s.len() == 0 {
        None
    } else if s.last() == c {
        Some((s.len() - 1) as nat)
    } else {
        last_place(s.drop_last(), c)
    }
}

fn find_last(chars: &[char], end: usize, c: char) -> (place: Option<usize>)
    requires
        end <= chars@.len(),
    ensures
        match last_place(chars@.take(end as int), c) {
            Some(expected) => place == Some(expected as usize) && expected < end,
            None => place is None,
        },
{
    let mut i: usize = end;
    while i > 0
        invariant
            i <= end <= chars@.len(),
            last_place(chars@.take(end as int), c) == last_place(chars@.take(i as int), c),
        decreases i,
    {
        assert(chars@.take(i as int).drop_last() =~= chars@.take(i - 1));
        i -= 1;
        if chars[i] == c {
            return Some(i);
        }
    }
    None
}

/// A part of an address in base ten: at most three digits without zeros in front.
pub open spec fn v4_part(s: Seq<char>) -> Option<u8> {
    match number(s, 10) {
        Some(n) => if 1 <= s.len() <= 3 && n <= 255 && (s.len() > 1 ==> s[0] != '0') {
            Some(n as u8)
        } else {
            None
        },
        None => None,
    }
}

/// Four parts with dots between them, as two groups of sixteen bits.
pub open spec fn v4_groups(s: Seq<char>) -> Option<Seq<u16>> {
    let parts = fields(s, '.');
    if parts.len() != 4 {
        None
    } else {
        match (v4_part(parts[0]), v4_part(parts[1]), v4_part(parts[2]), v4_part(parts[3])) {
            (Some(a), Some(b), Some(c), Some(d)) => Some(
                seq![(a * 256 + b) as u16, (c * 256 + d) as u16],
            ),
            _ => None,
        }
    }
}

fn read_v4_part(chars: &[char], from: usize, to: usize) -> (value: Option<u16>)
    requires
        from <= to <= chars@.len(),
    ensures
        match v4_part(chars@.subrange(from as int, to as int)) {
            Some(expected) => value == Some(expected as u16),
            None => value is None,
        },
{
    let ghost s = chars@.subrange(from as int, to as int);
    let len: usize = to - from;
    if len < 1 || len > 3 || (len > 1 && chars[from] == '0') {
        return None;
    }
    match read_number(chars, from, to, 10, 255) {
        Some(value) => Some(value as u16),
        None => None,
    }
}

fn read_v4_groups(chars: &[char], from: usize, to: usize) -> (groups: Option<(u16, u16)>)
    requires
        from <= to <= chars@.len(),
    ensures
        match v4_groups(chars@.subrange(from as int, to as int)) {
            Some(expected) => groups is Some && expected == seq![groups->Some_0.0, groups->Some_0.1],
            None => groups is None,
        },
{
    let parts = split_fields(chars, from, to, '.');
    if parts.len() != 4 {
        return None;
    }
    let a: u16 = read_v4_part(chars, parts[0].from, parts[0].to)?;
    let b: u16 = read_v4_part(chars, parts[1].from, parts[1].to)?;
    let c: u16 = read_v4_part(chars, parts[2].from, parts[2].to)?;
    let d: u16 = read_v4_part(chars, parts[3].from, parts[3].to)?;
    Some((a * 256 + b, c * 256 + d))
}

/// A group of one to four digits in base sixteen.
pub open spec fn v6_group(s: Seq<char>) -> Option<u16> {
    match number(s, 16) {
        Some(n) => if 1 <= s.len() <= 4 && n <= 0xffff {
            Some(n as u16)
        } else {
            None
        },
        None => None,
    }
}

/// The groups of the first `count` fields.
pub open spec fn v6_groups(parts: Seq<Seq<char>>) -> Option<Seq<u16>>
    decreases parts.len(),
{
    if parts.len() == 0 {
        Some(Seq::empty())
    } else {
        match (v6_groups(parts.drop_last()), v6_group(parts.last())) {
            (Some(before), Some(group)) => Some(before.push(group)),
            _ => None,
        }
    }
}

/// The groups of a run of fields with colons between them. The last field may be an address
/// in base ten if `embedded` says so.
pub open spec fn v6_run(s: Seq<char>, embedded: bool) -> Option<Seq<u16>> {
    let parts = fields(s, ':');
    match v6_groups(parts) {
        Some(groups) => Some(groups),
        None => if embedded {
            match (v6_groups(parts.drop_last()), v4_groups(parts.last())) {
                (Some(before), Some(last)) => Some(before + last),
                _ => None,
            }
        } else {
            None
        },
    }
}

fn read_v6_run(chars: &[char], from: usize, to: usize, embedded: bool) -> (groups: Option<Vec<u16>>)
    requires
        from <= to <= chars@.len(),
    ensures
        match v6_run(chars@.subrange(from as int, to as int), embedded) {
            Some(expected) => groups is Some && groups->Some_0@ == expected,
            None => groups is None,
        },
{
    let ghost s = chars@.subrange(from as int, to as int);
    let ghost parts = fields(s, ':');
    let spans = split_fields(chars, from, to, ':');
    let mut groups: Vec<u16> = Vec::new();
    let mut i: usize = 0;
    assert(parts.take(0) =~= Seq::empty());
    while i < spans.len()
        invariant
            i <= spans@.len(),
            from <= to <= chars@.len(),
            s == chars@.subrange(from as int, to as int),
            parts == fields(s, ':'),
            spans@.len() == parts.len() >= 1,
            forall|k: int|
                0 <= k < spans@.len() ==> from <= (#[trigger] spans@[k]).from <= spans@[k].to <= to
                    && chars@.subrange(spans@[k].from as int, spans@[k].to as int) == parts[k],
            v6_groups(parts.take(i as int)) == Some(groups@),
        decreases spans.len() - i,
    {
        let span: Span = spans[i];
        assert(parts.take(i + 1).drop_last() =~= parts.take(i as int));
        assert(parts.take(i + 1).last() == parts[i as int]);
        let read: Option<u32> = if span.to - span.from >= 1 && span.to - span.from <= 4 {
            read_number(chars, span.from, span.to, 16, 0xffff)
        } else {
            None
        };
        match read {
            Some(group) => {
                groups.push(group as u16);
            },
            None => {
                proof {
                    lemma_no_groups(parts, i + 1);
                }
                if !embedded || i + 1 < spans.len() {
                    proof {
                        if i + 1 < spans@.len() {
                            lemma_no_groups(parts.drop_last(), i + 1);
                            assert(parts.drop_last().take(i + 1) =~= parts.take(i + 1));
                        }
                    }
                    return None;
                }
                assert(parts.drop_last() =~= parts.take(i as int));
                match read_v4_groups(chars, span.from, span.to) {
                    Some((high, low)) => {
                        let ghost before = groups@;
                        groups.push(high);
                        groups.push(low);
                        assert(groups@ =~= before + seq![high, low]);
                        return Some(groups);
                    },
                    None => {
                        return None;
                    },
                }
            },
        }
        i += 1;
    }
    assert(parts.take(parts.len() as int) =~= parts);
    Some(groups)
}

/// Fields that begin with one that is no group have no groups.
proof fn lemma_no_groups(parts: Seq<Seq<char>>, i: int)
    requires
        0 <= i <= parts.len(),
        v6_groups(parts.take(i)) is None,
    ensures
        v6_groups(parts) is None,
    decreases parts.len() - i,
{
    if i < parts.len() {
        assert(parts.take(i + 1).drop_last() =~= parts.take(i));
        lemma_no_groups(parts, i + 1);
    } else {
        assert(parts.take(i) =~= parts);
    }
}

/// Where two colons stand together first.
pub open spec fn double_colon(s: Seq<char>) -> Option<nat>
    decreases s.len(),
{
    if s.len() < 2 {
        None
    } else if s[0] == ':' && s[1] == ':' {
        Some(0)
    } else {
        match double_colon(s.skip(1)) {
            Some(i) => Some(i + 1),
            None => None,
        }
    }
}

fn find_double_colon(chars: &[char], end: usize) -> (place: Option<usize>)
    requires
        end <= chars@.len(),
    ensures
        match double_colon(chars@.take(end as int)) {
            Some(expected) => place == Some(expected as usize) && expected + 2 <= end,
            None => place is None,
        },
{
    let ghost s = chars@.take(end as int);
    let mut i: usize = 0;
    assert(s.skip(0) =~= s);
    while end - i >= 2
        invariant
            i <= end <= chars@.len(),
            s == chars@.take(end as int),
            double_colon(s) == (match double_colon(s.skip(i as int)) {
                Some(k) => Some((k + i) as nat),
                None => None,
            }),
        decreases end - i,
    {
        if chars[i] == ':' && chars[i + 1] == ':' {
            return Some(i);
        }
        assert(s.skip(i as int).skip(1) =~= s.skip(i + 1));
        i += 1;
    }
    None
}

/// The eight groups that the text of an address stands for. Two colons together stand for
/// one or more groups of zeros.
pub open spec fn v6_address(s: Seq<char>) -> Option<Seq<u16>> {
    match double_colon(s) {
        None => match v6_run(s, true) {
            Some(groups) => if groups.len() == 8 {
                Some(groups)
            } else {
                None
            },
            None => None,
        },
        Some(i) => {
            let head = if i == 0 {
                Some(Seq::empty())
            } else {
                v6_run(s.take(i as int), false)
            };
            let tail = if i + 2 == s.len() {
                Some(Seq::empty())
            } else {
                v6_run(s.skip((i + 2) as int), true)
            };
            match (head, tail) {
                (Some(head), Some(tail)) => if head.len() + tail.len() <= 7 {
                    Some(head + zeros((8 - head.len() - tail.len()) as nat) + tail)
                } else {
                    None
                },
                _ => None,
            }
        },
    }
}

/// Groups of zeros.
pub open spec fn zeros(count: nat) -> Seq<u16> {
    Seq::new(count, |i: int| 0u16)
}

/// Groups as bytes in network order.
pub open spec fn group_bytes(groups: Seq<u16>) -> Seq<u8> {
    Seq::new(
        2 * groups.len(),
        |i: int|
            if i % 2 == 0 {
                (groups[i / 2] / 256) as u8
            } else {
                (groups[i / 2] % 256) as u8
            },
    )
}

fn pack_groups(groups: &Vec<u16>) -> (bytes: [u8; 16])
    requires
        groups@.len() == 8,
    ensures
        bytes@ == group_bytes(groups@),
{
    let mut bytes: [u8; 16] = [0u8; 16];
    let mut i: usize = 0;
    while i < 8
        invariant
            i <= 8,
            groups@.len() == 8,
            forall|k: int| 0 <= k < 2 * i ==> #[trigger] bytes@[k] == group_bytes(groups@)[k],
        decreases 8 - i,
    {
        bytes[2 * i] = (groups[i] / 256) as u8;
        bytes[2 * i + 1] = (groups[i] % 256) as u8;
        i += 1;
    }
    assert(bytes@ =~= group_bytes(groups@));
    bytes
}

/// The eight groups of the first `end` characters.
fn read_v6_address(chars: &[char], end: usize) -> (groups: Option<Vec<u16>>)
    requires
        end <= chars@.len(),
    ensures
        match v6_address(chars@.take(end as int)) {
            Some(expected) => groups is Some && groups->Some_0@ == expected && expected.len() == 8,
            None => groups is None,
        },
{
    let ghost s = chars@.take(end as int);
    assert(chars@.subrange(0, end as int) =~= s);
    match find_double_colon(chars, end) {
        None => match read_v6_run(chars, 0, end, true) {
            Some(groups) => if groups.len() == 8 {
                Some(groups)
            } else {
                None
            },
            None => None,
        },
        Some(i) => {
            assert(chars@.subrange(0, i as int) =~= s.take(i as int));
            assert(chars@.subrange(i + 2, end as int) =~= s.skip(i + 2));
            let head: Option<Vec<u16>> = if i == 0 {
                Some(Vec::new())
            } else {
                read_v6_run(chars, 0, i, false)
            };
            let tail: Option<Vec<u16>> = if i + 2 == end {
                Some(Vec::new())
            } else {
                read_v6_run(chars, i + 2, end, true)
            };
            let head = head?;
            let tail = tail?;
            if head.len() > 7 || tail.len() > 7 - head.len() {
                return None;
            }
            let ghost first = head@;
            let count: usize = 8 - head.len() - tail.len();
            let mut groups = head;
            let mut k: usize = 0;
            assert(first + zeros(0) =~= first);
            while k < count
                invariant
                    k <= count,
                    groups@ == first + zeros(k as nat),
                decreases count - k,
            {
                groups.push(0);
                k += 1;
                assert(groups@ =~= first + zeros(k as nat));
            }
            let ghost middle = groups@;
            let mut k: usize = 0;
            assert(middle + tail@.take(0) =~= middle);
            while k < tail.len()
                invariant
                    k <= tail@.len(),
                    groups@ == middle + tail@.take(k as int),
                decreases tail.len() - k,
            {
                groups.push(tail[k]);
                k += 1;
                assert(groups@ =~= middle + tail@.take(k as int));
            }
            assert(tail@.take(tail@.len() as int) =~= tail@);
            Some(groups)
        },
    }
}

/// The first field that is no number of at most 255.
pub open spec fn bad_octet(parts: Seq<Seq<char>>) -> Option<Seq<char>>
    decreases parts.len(),
{
    if parts.len() == 0 {
        None
    } else if octet(parts[0]) is None {
        Some(parts[0])
    } else {
        bad_octet(parts.skip(1))
    }
}

/// The port that two fields stand for.
pub open spec fn octet_port(high: Seq<char>, low: Seq<char>) -> u16 {
    (octet(high)->Some_0 * 256 + octet(low)->Some_0) as u16
}

/// The address that a universal address of RFC 5665 over TCP and IPv4 stands for.
pub open spec fn tcp_address(s: Seq<char>) -> std::result::Result<AddrView, ErrorView> {
    let parts = fields(s, '.');
    if parts.len() != 6 {
        Err(
            ErrorView::Xdr("invalid tcp r_addr (expected 6 dot-separated fields): "@ + s),
        )
    } else {
        match bad_octet(parts) {
            Some(part) => Err(ErrorView::Xdr("invalid address octet: "@ + part)),
            None => Ok(
                AddrView {
                    v4: true,
                    ip: Seq::new(4, |i: int| octet(parts[i])->Some_0),
                    port: octet_port(parts[4], parts[5]),
                    flowinfo: 0,
                    scope_id: 0,
                },
            ),
        }
    }
}

/// The address that a universal address of RFC 5665 over TCP and IPv6 stands for. The last
/// two dots stand before the bytes of the port.
pub open spec fn tcp6_address(s: Seq<char>) -> std::result::Result<AddrView, ErrorView> {
    match last_place(s, '.') {
        None => Err(ErrorView::Xdr("invalid tcp6 r_addr (missing port): "@ + s)),
        Some(second) => match last_place(s.take(second as int), '.') {
            None => Err(ErrorView::Xdr("invalid tcp6 r_addr (missing port octets): "@ + s)),
            Some(first) => {
                let high = s.subrange((first + 1) as int, second as int);
                let low = s.skip((second + 1) as int);
                match bad_octet(seq![high, low]) {
                    Some(part) => Err(ErrorView::Xdr("invalid address octet: "@ + part)),
                    None => match v6_address(s.take(first as int)) {
                        None => Err(
                            ErrorView::Xdr("invalid IPv6 address: "@ + s.take(first as int)),
                        ),
                        Some(groups) => Ok(
                            AddrView {
                                v4: false,
                                ip: group_bytes(groups),
                                port: octet_port(high, low),
                                flowinfo: 0,
                                scope_id: 0,
                            },
                        ),
                    },
                }
            },
        },
    }
}

/// The address that a netid and a universal address stand for.
pub open spec fn netaddr(netid: Seq<char>, addr: Seq<char>) -> std::result::Result<
    AddrView,
    ErrorView,
> {
    if netid == "tcp"@ {
        tcp_address(addr)
    } else if netid == "tcp6"@ {
        tcp6_address(addr)
    } else {
        Err(ErrorView::Xdr("unsupported netid: "@ + netid))
    }
}

/// Whether an address was read as expected.
pub open spec fn addr_read_as(
    addr: Result<SocketAddr>,
    expected: std::result::Result<AddrView, ErrorView>,
) -> bool {
    match expected {
        Ok(view) => addr is Ok && addr->Ok_0@ == view,
        Err(error) => addr is Err && addr->Err_0@ == error,
    }
}

fn parse_tcp(r_addr: &str) -> (addr: Result<SocketAddr>)
    ensures
        addr_read_as(addr, tcp_address(r_addr@)),
{
    let chars = characters(r_addr);
    let parts = split_fields(&chars, 0, chars.len(), '.');
    let ghost expected = fields(r_addr@, '.');
    assert(chars@.subrange(0, chars@.len() as int) =~= r_addr@);
    if parts.len() != 6 {
        return Err(
            NfsError::Xdr(
                concat2("invalid tcp r_addr (expected 6 dot-separated fields): ", r_addr),
            ),
        );
    }
    proof {
        reveal_with_fuel(bad_octet, 7);
        assert(expected.skip(1).skip(1) =~= expected.skip(2));
        assert(expected.skip(2).skip(1) =~= expected.skip(3));
        assert(expected.skip(3).skip(1) =~= expected.skip(4));
        assert(expected.skip(4).skip(1) =~= expected.skip(5));
    }
    let a: u8 = read_octet(r_addr, &chars, parts[0].from, parts[0].to)?;
    let b: u8 = read_octet(r_addr, &chars, parts[1].from, parts[1].to)?;
    let c: u8 = read_octet(r_addr, &chars, parts[2].from, parts[2].to)?;
    let d: u8 = read_octet(r_addr, &chars, parts[3].from, parts[3].to)?;
    let high: u8 = read_octet(r_addr, &chars, parts[4].from, parts[4].to)?;
    let low: u8 = read_octet(r_addr, &chars, parts[5].from, parts[5].to)?;
    let addr = SocketAddr::new(IpAddr::V4([a, b, c, d]), high as u16 * 256 + low as u16);
    assert(addr@.ip =~= Seq::new(4, |i: int| octet(expected[i])->Some_0));
    Ok(addr)
}

#[verifier::rlimit(60)]
fn parse_tcp6(r_addr: &str) -> (addr: Result<SocketAddr>)
    ensures
        addr_read_as(addr, tcp6_address(r_addr@)),
{
    let chars = characters(r_addr);
    assert(chars@.take(chars@.len() as int) =~= r_addr@);
    let second: usize = match find_last(&chars, chars.len(), '.') {
        Some(place) => place,
        None => {
            return Err(
                NfsError::Xdr(concat2("invalid tcp6 r_addr (missing port): ", r_addr)),
            );
        },
    };
    let first: usize = match find_last(&chars, second, '.') {
        Some(place) => place,
        None => {
            return Err(
                NfsError::Xdr(concat2("invalid tcp6 r_addr (missing port octets): ", r_addr)),
            );
        },
    };
    proof {
        let high = r_addr@.subrange(first + 1, second as int);
        let low = r_addr@.skip(second + 1);
        assert(low =~= r_addr@.subrange(second + 1, r_addr@.len() as int));
        assert(seq![high, low].skip(1) =~= seq![low]);
        assert(seq![low].skip(1) =~= Seq::empty());
        reveal_with_fuel(bad_octet, 3);
    }
    let high: u8 = read_octet(r_addr, &chars, first + 1, second)?;
    let low: u8 = read_octet(r_addr, &chars, second + 1, chars.len())?;
    match read_v6_address(&chars, first) {
        Some(groups) => Ok(
            SocketAddr::new(
                IpAddr::V6(pack_groups(&groups)),
                high as u16 * 256 + low as u16,
            ),
        ),
        None => {
            assert(r_addr@.subrange(0, first as int) =~= r_addr@.take(first as int));
            Err(
                NfsError::Xdr(
                    concat2("invalid IPv6 address: ", r_addr.substring_char(0, first)),
                ),
            )
        },
    }
}

/// Reads a netaddr4: a netid, "tcp" or "tcp6", and a universal address, whose last two
/// fields are the bytes of the port.
pub fn parse_netaddr4(r_netid: &str, r_addr: &str) -> (addr: Result<SocketAddr>)
    ensures
        addr_read_as(addr, netaddr(r_netid@, r_addr@)),
{
    if same_text(r_netid, "tcp") {
        parse_tcp(r_addr)
    } else if same_text(r_netid, "tcp6") {
        parse_tcp6(r_addr)
    } else {
        Err(NfsError::Xdr(concat2("unsupported netid: ", r_netid)))
    }
}

} // verus!
