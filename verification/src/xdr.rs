//! External Data Representation (RFC 4506): how numbers and byte strings stand on the
//! wire, as specifications and as the encoders that meet them.

use vstd::prelude::*;
use vstd::utf8::encode_utf8;

verus! {

/// The big-endian number in the first four bytes.
pub open spec fn word(s: Seq<u8>) -> u32 {
    (s[0] * 0x100_0000 + s[1] * 0x1_0000 + s[2] * 0x100 + s[3]) as u32
}

/// The big-endian number in the first eight bytes.
pub open spec fn hyper(s: Seq<u8>) -> u64 {
    (word(s) * 0x1_0000_0000 + word(s.skip(4))) as u64
}

/// A number as four bytes, the most significant first.
pub open spec fn be32(v: u32) -> Seq<u8> {
    seq![
        (v / 0x100_0000) as u8,
        (v / 0x1_0000 % 0x100) as u8,
        (v / 0x100 % 0x100) as u8,
        (v % 0x100) as u8,
    ]
}

/// A number as eight bytes, the most significant first.
pub open spec fn be64(v: u64) -> Seq<u8> {
    be32((v / 0x1_0000_0000) as u32) + be32((v % 0x1_0000_0000) as u32)
}

/// A boolean: the word one or zero.
pub open spec fn bool32(v: bool) -> Seq<u8> {
    be32(if v { 1u32 } else { 0u32 })
}

/// A length rounded up to the next multiple of four.
pub open spec fn padded(len: nat) -> nat {
    ((len + 3) / 4 * 4) as nat
}

/// The zero bytes that follow `len` bytes of data.
pub open spec fn padding(len: nat) -> Seq<u8> {
    Seq::new((padded(len) - len) as nat, |i: int| 0u8)
}

/// Bytes of a length that both sides know: the data and its padding.
pub open spec fn fixed_opaque(data: Seq<u8>) -> Seq<u8> {
    data + padding(data.len())
}

/// Bytes with their length in front. The length field holds the length modulo 2^32.
pub open spec fn opaque(data: Seq<u8>) -> Seq<u8> {
    be32(data.len() as u32) + fixed_opaque(data)
}

/// Words one after the other.
pub open spec fn words(values: Seq<u32>) -> Seq<u8>
    decreases values.len(),
{
    if values.len() == 0 {
        Seq::empty()
    } else {
        words(values.drop_last()) + be32(values.last())
    }
}

/// An attribute bitmap: the number of words, then the words.
pub open spec fn bitmap4(values: Seq<u32>) -> Seq<u8> {
    be32(values.len() as u32) + words(values)
}

/// Reading a word back gives the number that was written, whatever follows it.
pub proof fn lemma_word_of_be32(v: u32, tail: Seq<u8>)
    ensures
        word(be32(v) + tail) == v,
        (be32(v) + tail).skip(4) == tail,
{
    let s = be32(v) + tail;
    assert(s[0] == (v / 0x100_0000) as u8);
    assert(s[1] == (v / 0x1_0000 % 0x100) as u8);
    assert(s[2] == (v / 0x100 % 0x100) as u8);
    assert(s[3] == (v % 0x100) as u8);
    assert(s.skip(4) =~= tail);
}

/// Reading eight bytes back gives the number that was written, whatever follows it.
pub proof fn lemma_hyper_of_be64(v: u64, tail: Seq<u8>)
    ensures
        hyper(be64(v) + tail) == v,
        (be64(v) + tail).skip(8) == tail,
{
    let high = (v / 0x1_0000_0000) as u32;
    let low = (v % 0x1_0000_0000) as u32;
    let s = be64(v) + tail;
    assert(s =~= be32(high) + (be32(low) + tail));
    lemma_word_of_be32(high, be32(low) + tail);
    lemma_word_of_be32(low, tail);
    assert(s.skip(8) =~= tail);
}

/// Eight bytes take eight bytes.
pub proof fn lemma_be64_len(v: u64)
    ensures
        be64(v).len() == 8,
{
}

/// Two numbers of eight bytes stand one behind the other.
pub proof fn lemma_two_hypers(a: u64, b: u64)
    ensures
        (be64(a) + be64(b)).len() == 16,
        hyper(be64(a) + be64(b)) == a,
        hyper((be64(a) + be64(b)).skip(8)) == b,
{
    let x = be64(a);
    let y = be64(b);
    lemma_be64_len(a);
    lemma_be64_len(b);
    lemma_hyper_of_be64(a, y);
    lemma_hyper_of_be64(b, Seq::empty());
    lemma_concat_empty(y);
}

proof fn lemma_concat_empty(s: Seq<u8>)
    ensures
        s + Seq::<u8>::empty() == s,
{
    assert(s + Seq::<u8>::empty() =~= s);
}

/// `len` rounded up is a multiple of four, and less than four above it.
pub proof fn lemma_padded(len: nat)
    ensures
        padded(len) % 4 == 0,
        len <= padded(len) < len + 4,
{
}

/// Opaque data is read back as it was written: its length, its bytes, and what follows it.
pub proof fn law_opaque_is_read_back(data: Seq<u8>, tail: Seq<u8>)
    requires
        data.len() <= u32::MAX,
    ensures
        ({
            let s = opaque(data) + tail;
            &&& word(s) == data.len()
            &&& s.skip(4).take(data.len() as int) == data
            &&& s.skip(4).skip(padded(data.len()) as int) == tail
            &&& opaque(data).len() % 4 == 0
        }),
{
    let s = opaque(data) + tail;
    assert(s =~= be32(data.len() as u32) + (fixed_opaque(data) + tail));
    lemma_word_of_be32(data.len() as u32, fixed_opaque(data) + tail);
    assert(s.skip(4).take(data.len() as int) =~= data);
    assert(s.skip(4).skip(padded(data.len()) as int) =~= tail);
}

/// `len` rounded up to a multiple of four.
pub fn padded_len(len: u32) -> (out: u64)
    ensures
        out == padded(len as nat),
{
    (len as u64 + 3) / 4 * 4
}

/// Appends bytes as they are.
pub fn append_bytes(buf: &mut Vec<u8>, data: &[u8])
    ensures
        final(buf)@ == old(buf)@ + data@,
{
    buf.extend_from_slice(data);
    assert(buf@ =~= old(buf)@ + data@);
}

pub fn xdr_u32(buf: &mut Vec<u8>, v: u32)
    ensures
        final(buf)@ == old(buf)@ + be32(v),
{
    buf.push((v / 0x100_0000) as u8);
    buf.push((v / 0x1_0000 % 0x100) as u8);
    buf.push((v / 0x100 % 0x100) as u8);
    buf.push((v % 0x100) as u8);
    assert(buf@ =~= old(buf)@ + be32(v));
}

pub fn xdr_u64(buf: &mut Vec<u8>, v: u64)
    ensures
        final(buf)@ == old(buf)@ + be64(v),
{
    xdr_u32(buf, (v / 0x1_0000_0000) as u32);
    xdr_u32(buf, (v % 0x1_0000_0000) as u32);
    assert(buf@ =~= old(buf)@ + be64(v));
}

/// Appends a signed number in two's complement.
pub fn xdr_i64(buf: &mut Vec<u8>, v: i64)
    ensures
        final(buf)@ == old(buf)@ + be64(v as u64),
{
    xdr_u64(buf, v as u64)
}

pub fn xdr_bool(buf: &mut Vec<u8>, v: bool)
    ensures
        final(buf)@ == old(buf)@ + bool32(v),
{
    xdr_u32(buf, if v { 1 } else { 0 })
}

pub fn xdr_fixed_bytes(buf: &mut Vec<u8>, data: &[u8])
    ensures
        final(buf)@ == old(buf)@ + fixed_opaque(data@),
{
    append_bytes(buf, data);
    let pad: usize = (4 - data.len() % 4) % 4;
    let mut i: usize = 0;
    while i < pad
        invariant
            i <= pad,
            pad == padded(data@.len()) - data@.len(),
            buf@ == old(buf)@ + data@ + Seq::new(i as nat, |k: int| 0u8),
        decreases pad - i,
    {
        buf.push(0);
        i += 1;
        assert(buf@ =~= old(buf)@ + data@ + Seq::new(i as nat, |k: int| 0u8));
    }
    assert(buf@ =~= old(buf)@ + fixed_opaque(data@));
}

pub fn xdr_var_bytes(buf: &mut Vec<u8>, data: &[u8])
    ensures
        final(buf)@ == old(buf)@ + opaque(data@),
{
    xdr_u32(buf, data.len() as u32);
    xdr_fixed_bytes(buf, data);
    assert(buf@ =~= old(buf)@ + opaque(data@));
}

pub fn xdr_string(buf: &mut Vec<u8>, s: &str)
    ensures
        final(buf)@ == old(buf)@ + opaque(encode_utf8(s@)),
{
    xdr_var_bytes(buf, s.as_bytes())
}

/// Appends words one after the other.
pub fn xdr_words(buf: &mut Vec<u8>, values: &[u32])
    ensures
        final(buf)@ == old(buf)@ + words(values@),
{
    let ghost start = buf@;
    assert(values@.take(0) =~= Seq::empty());
    assert(buf@ =~= start + words(values@.take(0)));
    let mut i: usize = 0;
    while i < values.len()
        invariant
            i <= values@.len(),
            buf@ == start + words(values@.take(i as int)),
        decreases values.len() - i,
    {
        xdr_u32(buf, values[i]);
        i += 1;
        assert(values@.take(i as int).drop_last() =~= values@.take(i - 1));
        assert(buf@ =~= start + words(values@.take(i as int)));
    }
    assert(values@.take(values@.len() as int) =~= values@);
}

pub fn xdr_bitmap(buf: &mut Vec<u8>, bitmap: &[u32])
    ensures
        final(buf)@ == old(buf)@ + bitmap4(bitmap@),
{
    xdr_u32(buf, bitmap.len() as u32);
    xdr_words(buf, bitmap);
    assert(buf@ =~= old(buf)@ + bitmap4(bitmap@));
}

/// The word that stands at an offset.
pub fn read_u32(data: &[u8], offset: usize) -> (value: u32)
    requires
        offset + 4 <= data@.len(),
    ensures
        value == word(data@.skip(offset as int)),
{
    data[offset] as u32 * 0x100_0000 + data[offset + 1] as u32 * 0x1_0000 + data[offset + 2] as u32
        * 0x100 + data[offset + 3] as u32
}

/// Whether some bytes are the end of others.
#[verifier::opaque]
pub open spec fn tail_of(left: Seq<u8>, s: Seq<u8>) -> bool {
    left.len() <= s.len() && left == s.skip(s.len() - left.len())
}

/// Bytes are the end of themselves.
pub broadcast proof fn lemma_tail_of_itself(s: Seq<u8>)
    ensures
        #[trigger] tail_of(s, s),
{
    reveal(tail_of);
    assert(s.skip(0) =~= s);
}

/// What follows the first bytes is the end.
pub broadcast proof fn lemma_skipped_is_tail(s: Seq<u8>, count: int)
    requires
        0 <= count <= s.len(),
    ensures
        #[trigger] tail_of(s.skip(count), s),
{
    reveal(tail_of);
}

/// The end of an end is an end.
pub broadcast proof fn lemma_tail_of_tail(a: Seq<u8>, b: Seq<u8>, c: Seq<u8>)
    requires
        #[trigger] tail_of(a, b),
        #[trigger] tail_of(b, c),
    ensures
        tail_of(a, c),
{
    reveal(tail_of);
    assert(a =~= c.skip(c.len() - a.len()));
}

/// How the ends of bytes are related.
pub broadcast group group_tails {
    lemma_tail_of_itself,
    lemma_skipped_is_tail,
    lemma_tail_of_tail,
}

} // verus!
