//! How addresses and lists are spelled, and what they are read back as.

use vstd::prelude::*;

use crate::error::ErrorView;
use crate::net::{
    bad_octet, common_bits, dotted, fields, group_bytes, number, octet, tcp_address, zero_bits,
    AddrView,
};
use crate::text::decimal;

verus! {

/// A bit of an address, counted from the highest bit of its first byte on.
pub open spec fn bit_at(bytes: Seq<u8>, i: int) -> bool {
    (bytes[i / 8] >> ((7 - i % 8) as u8)) % 2 == 1
}

proof fn lemma_bits_of_bytes(a: u8, b: u8, k: u8)
    requires
        a != b,
    ensures
        zero_bits(a ^ b) < 8,
        k < zero_bits(a ^ b) ==> ((a >> ((7 - k) as u8)) % 2 == 1) == ((b >> ((7 - k) as u8)) % 2
            == 1),
        k == zero_bits(a ^ b) ==> ((a >> ((7 - k) as u8)) % 2 == 1) != ((b >> ((7 - k) as u8)) % 2
            == 1),
{
    let x = a ^ b;
    assert(x != 0) by (bit_vector)
        requires
            x == a ^ b,
            a != b,
    ;
    let z: u8 = if x >= 128 {
        0
    } else if x >= 64 {
        1
    } else if x >= 32 {
        2
    } else if x >= 16 {
        3
    } else if x >= 8 {
        4
    } else if x >= 4 {
        5
    } else if x >= 2 {
        6
    } else {
        7
    };
    if k <= z {
        let s = (7 - k) as u8;
        assert({
            &&& k < z ==> (a >> s) % 2 == (b >> s) % 2
            &&& k == z ==> (a >> s) % 2 != (b >> s) % 2
        }) by (bit_vector)
            requires
                x == a ^ b,
                x != 0,
                k <= z,
                s == 7 - k,
                z == (if x >= 128 {
                    0u8
                } else if x >= 64 {
                    1u8
                } else if x >= 32 {
                    2u8
                } else if x >= 16 {
                    3u8
                } else if x >= 8 {
                    4u8
                } else if x >= 4 {
                    5u8
                } else if x >= 2 {
                    6u8
                } else {
                    7u8
                }),
        ;
        assert((a >> s) % 2 < 2 && (b >> s) % 2 < 2);
    }
}

/// Addresses have as many bits in common as they agree on from the front: each of those bits is
/// the same in both, and the next one is not.
pub proof fn law_common_bits_agree(a: Seq<u8>, b: Seq<u8>, i: int)
    requires
        a.len() == b.len(),
        0 <= i < 8 * a.len(),
    ensures
        common_bits(a, b) <= 8 * a.len(),
        i < common_bits(a, b) ==> bit_at(a, i) == bit_at(b, i),
        i == common_bits(a, b) ==> bit_at(a, i) != bit_at(b, i),
        common_bits(a, b) == 8 * a.len() ==> a == b,
    decreases a.len(),
{
    if a[0] != b[0] {
        if i < 8 {
            lemma_bits_of_bytes(a[0], b[0], i as u8);
        } else {
            lemma_bits_of_bytes(a[0], b[0], 0);
        }
    } else if a.len() == 1 {
        reveal_with_fuel(common_bits, 2);
        assert(a.skip(1) =~= Seq::<u8>::empty());
        assert(a =~= b);
    } else {
        let (c, d) = (a.skip(1), b.skip(1));
        if i >= 8 {
            law_common_bits_agree(c, d, i - 8);
            assert((i - 8) / 8 == i / 8 - 1 && (i - 8) % 8 == i % 8);
            assert(c[(i - 8) / 8] == a[i / 8] && d[(i - 8) / 8] == b[i / 8]);
        } else {
            law_common_bits_agree(c, d, 0);
        }
        if common_bits(a, b) == 8 * a.len() {
            assert(c == d);
            assert(a =~= seq![a[0]] + c);
            assert(b =~= seq![b[0]] + d);
        }
    }
}

proof fn lemma_fields_go_on(s: Seq<char>, word: Seq<char>, separator: char)
    requires
        forall|i: int| 0 <= i < word.len() ==> #[trigger] word[i] != separator,
    ensures
        fields(s.push(separator) + word, separator) == fields(s, separator).push(word),
        fields(word, separator) == seq![word],
    decreases word.len(),
{
    if word.len() == 0 {
        assert(s.push(separator) + word =~= s.push(separator));
        assert(s.push(separator).drop_last() =~= s);
        assert(word =~= Seq::<char>::empty());
    } else {
        let front = word.drop_last();
        lemma_fields_go_on(s, front, separator);
        let all = s.push(separator) + word;
        assert(all.drop_last() =~= s.push(separator) + front);
        assert(front.push(word.last()) =~= word);
        assert(fields(s, separator).push(front).drop_last() =~= fields(s, separator));
        assert(fields(all, separator) =~= fields(s, separator).push(word));
        assert(seq![front].drop_last() =~= Seq::<Seq<char>>::empty());
        assert(fields(word, separator) =~= seq![word]);
    }
}

/// Words without a separator in them, put together with it between them, are its fields.
pub proof fn law_fields_are_read_back(words: Seq<Seq<char>>, separator: char)
    requires
        words.len() > 0,
        forall|k: int, i: int|
            0 <= k < words.len() && 0 <= i < words[k].len() ==> #[trigger] words[k][i] != separator,
    ensures
        fields(put_together(words, separator), separator) == words,
    decreases words.len(),
{
    let last = words.last();
    assert forall|i: int| 0 <= i < last.len() implies #[trigger] last[i] != separator by {
        assert(words[words.len() - 1][i] != separator);
    }
    if words.len() == 1 {
        lemma_fields_go_on(Seq::empty(), last, separator);
        assert(words =~= seq![last]);
    } else {
        let before = words.drop_last();
        assert forall|k: int, i: int| 0 <= k < before.len() && 0 <= i < before[k].len() implies
            #[trigger] before[k][i] != separator by {
            assert(words[k][i] != separator);
        }
        law_fields_are_read_back(before, separator);
        lemma_fields_go_on(put_together(before, separator), last, separator);
        assert(before.push(last) =~= words);
    }
}

/// Words with a separator between them.
pub open spec fn put_together(words: Seq<Seq<char>>, separator: char) -> Seq<char>
    decreases words.len(),
{
    if words.len() == 0 {
        Seq::empty()
    } else if words.len() == 1 {
        words[0]
    } else {
        put_together(words.drop_last(), separator).push(separator) + words.last()
    }
}

/// A number in base ten is read as itself.
pub proof fn law_number_is_read_back(n: nat)
    ensures
        number(decimal(n), 10) == Some(n),
    decreases n,
{
    crate::text::law_decimal_is_read_back(n);
    if n < 10 {
        reveal_with_fuel(number, 2);
        crate::text::law_digit_is_read_back(n);
        assert(decimal(n).drop_last() =~= Seq::<char>::empty());
        assert(decimal(n).last() == decimal(n)[0]);
    } else {
        law_number_is_read_back(n / 10);
        crate::text::law_digit_is_read_back(n % 10);
        assert(decimal(n).drop_last() =~= decimal(n / 10));
        assert(decimal(n).last() == crate::text::digit(n % 10));
    }
}

proof fn lemma_octet_is_read_back(byte: u8)
    ensures
        octet(decimal(byte as nat)) == Some(byte),
        forall|i: int|
            0 <= i < decimal(byte as nat).len() ==> #[trigger] decimal(byte as nat)[i] != '.',
{
    crate::text::law_decimal_is_read_back(byte as nat);
    law_number_is_read_back(byte as nat);
    assert(decimal(byte as nat)[0] != '+');
}

proof fn lemma_dotted(bytes: Seq<u8>)
    requires
        bytes.len() > 0,
    ensures
        dotted(bytes) == put_together(
            bytes.map_values(|byte: u8| decimal(byte as nat)),
            '.',
        ),
    decreases bytes.len(),
{
    let words = bytes.map_values(|byte: u8| decimal(byte as nat));
    if bytes.len() > 1 {
        lemma_dotted(bytes.drop_last());
        assert(bytes.drop_last().map_values(|byte: u8| decimal(byte as nat)) =~= words.drop_last());
        reveal_strlit(".");
        let front = dotted(bytes.drop_last());
        assert(front + "."@ =~= front.push('.'));
    }
}

/// An address of IPv4 is read back from its six numbers: four of the address, and two of the
/// port.
pub proof fn law_address_is_read_back(ip: Seq<u8>, port: u16)
    requires
        ip.len() == 4,
    ensures
        tcp_address(dotted(ip + seq![(port / 256) as u8, (port % 256) as u8])) == Ok::<
            AddrView,
            ErrorView,
        >(AddrView { v4: true, ip, port, flowinfo: 0, scope_id: 0 }),
{
    let bytes = ip + seq![(port / 256) as u8, (port % 256) as u8];
    let words = bytes.map_values(|byte: u8| decimal(byte as nat));
    lemma_dotted(bytes);
    assert forall|k: int, i: int| 0 <= k < words.len() && 0 <= i < words[k].len() implies
        #[trigger] words[k][i] != '.' by {
        lemma_octet_is_read_back(bytes[k]);
    }
    law_fields_are_read_back(words, '.');
    assert forall|k: int| 0 <= k < 6 implies octet(#[trigger] words[k]) == Some(bytes[k]) by {
        lemma_octet_is_read_back(bytes[k]);
    }
    lemma_no_bad_octet(words);
    assert(Seq::new(4, |i: int| octet(words[i])->Some_0) =~= ip);
    assert(octet(words[4]) == Some((port / 256) as u8));
    assert(octet(words[5]) == Some((port % 256) as u8));
}

proof fn lemma_no_bad_octet(parts: Seq<Seq<char>>)
    requires
        forall|k: int| 0 <= k < parts.len() ==> octet(#[trigger] parts[k]) is Some,
    ensures
        bad_octet(parts) is None,
    decreases parts.len(),
{
    if parts.len() > 0 {
        assert(octet(parts[0]) is Some);
        assert forall|k: int| 0 <= k < parts.skip(1).len() implies octet(
            #[trigger] parts.skip(1)[k],
        ) is Some by {
            assert(octet(parts[k + 1]) is Some);
        }
        lemma_no_bad_octet(parts.skip(1));
    }
}

/// The groups of an address of IPv6 are its bytes in pairs, the higher one first.
pub proof fn law_groups_are_pairs_of_bytes(groups: Seq<u16>, i: int)
    requires
        0 <= i < groups.len(),
    ensures
        group_bytes(groups).len() == 2 * groups.len(),
        group_bytes(groups)[2 * i] * 256 + group_bytes(groups)[2 * i + 1] == groups[i],
{
    assert((2 * i) / 2 == i && (2 * i) % 2 == 0);
    assert((2 * i + 1) / 2 == i && (2 * i + 1) % 2 == 1);
}


} // verus!
