//! How bytes are read: the numbers and the counted data that stand in them, one behind the
//! other, without regard to what wrote them.

use crate::xdr::{
    be32, be64, bitmap4, fixed_opaque, hyper, lemma_hyper_of_be64, lemma_word_of_be32, opaque, padded,
    word, words,
};
use vstd::prelude::*;

verus! {

/// The number that bytes hold, the most significant one first.
pub open spec fn number(s: Seq<u8>) -> nat
    decreases s.len(),
{
    if s.len() == 0 {
        0
    } else {
        number(s.drop_last()) * 256 + s.last() as nat
    }
}

/// What is to be found in bytes, from the front to the back.
pub enum Fields {
    Start,
    /// Then a number of four bytes.
    Word(Box<Fields>, u32),
    /// Then a number of eight bytes.
    Hyper(Box<Fields>, u64),
    /// Then bytes as they are.
    Bytes(Box<Fields>, Seq<u8>),
    /// Then data behind its length, filled up with zeros to a multiple of four.
    Counted(Box<Fields>, Seq<u8>),
    /// Then numbers of four bytes each.
    Words(Box<Fields>, Seq<u32>),
}

impl Fields {
    pub open spec fn word(self, value: u32) -> Fields {
        Fields::Word(Box::new(self), value)
    }

    pub open spec fn flag(self, value: bool) -> Fields {
        Fields::Word(
            Box::new(self),
            if value {
                1
            } else {
                0
            },
        )
    }

    pub open spec fn hyper(self, value: u64) -> Fields {
        Fields::Hyper(Box::new(self), value)
    }

    pub open spec fn bytes(self, value: Seq<u8>) -> Fields {
        Fields::Bytes(Box::new(self), value)
    }

    pub open spec fn counted(self, value: Seq<u8>) -> Fields {
        Fields::Counted(Box::new(self), value)
    }

    pub open spec fn words(self, values: Seq<u32>) -> Fields {
        Fields::Words(Box::new(self), values)
    }

    /// Numbers of four bytes behind how many they are.
    pub open spec fn list(self, values: Seq<u32>) -> Fields {
        Fields::Words(Box::new(self.word(values.len() as u32)), values)
    }
}

/// Whether bytes are just those fields, with nothing before, between or behind them.
pub open spec fn holds(s: Seq<u8>, fields: Fields) -> bool
    decreases fields,
{
    match fields {
        Fields::Start => s.len() == 0,
        Fields::Word(before, value) => {
            &&& s.len() >= 4
            &&& number(s.skip(s.len() - 4)) == value
            &&& holds(s.take(s.len() - 4), *before)
        },
        Fields::Hyper(before, value) => {
            &&& s.len() >= 8
            &&& number(s.skip(s.len() - 8)) == value
            &&& holds(s.take(s.len() - 8), *before)
        },
        Fields::Bytes(before, value) => {
            &&& s.len() >= value.len()
            &&& s.skip(s.len() - value.len()) == value
            &&& holds(s.take(s.len() - value.len()), *before)
        },
        Fields::Counted(before, value) => {
            let size = 4 + (value.len() + 3) / 4 * 4;
            let start = s.len() - size;
            &&& s.len() >= size
            &&& number(s.subrange(start, start + 4)) == value.len()
            &&& s.subrange(start + 4, start + 4 + value.len()) == value
            &&& forall|i: int| start + 4 + value.len() <= i < s.len() ==> s[i] == 0
            &&& holds(s.take(start), *before)
        },
        Fields::Words(before, values) => {
            let start = s.len() - 4 * values.len();
            &&& start >= 0
            &&& forall|i: int|
                0 <= i < values.len() ==> number(s.subrange(start + 4 * i, start + 4 * i + 4))
                    == #[trigger] values[i]
            &&& holds(s.take(start), *before)
        },
    }
}

/// Four bytes hold the number that was written into them.
pub proof fn law_word_is_a_number(value: u32)
    ensures
        be32(value).len() == 4,
        number(be32(value)) == value,
{
    let s = be32(value);
    reveal_with_fuel(number, 5);
    assert(s.drop_last() =~= seq![s[0], s[1], s[2]]);
    assert(s.drop_last().drop_last() =~= seq![s[0], s[1]]);
    assert(s.drop_last().drop_last().drop_last() =~= seq![s[0]]);
    assert(s.drop_last().drop_last().drop_last().drop_last() =~= Seq::<u8>::empty());
}

proof fn lemma_number_splits(a: Seq<u8>, b: Seq<u8>)
    requires
        b.len() == 4,
    ensures
        number(a + b) == number(a) * 0x1_0000_0000 + number(b),
{
    reveal_with_fuel(number, 5);
    assert((a + b).drop_last() =~= a + b.drop_last());
    assert((a + b.drop_last()).drop_last() =~= a + b.drop_last().drop_last());
    assert((a + b.drop_last().drop_last()).drop_last() =~= a
        + b.drop_last().drop_last().drop_last());
    assert((a + b.drop_last().drop_last().drop_last()).drop_last() =~= a);
}

/// Eight bytes hold the number that was written into them.
pub proof fn law_hyper_is_a_number(value: u64)
    ensures
        be64(value).len() == 8,
        number(be64(value)) == value,
{
    let high = (value / 0x1_0000_0000) as u32;
    let low = (value % 0x1_0000_0000) as u32;
    law_word_is_a_number(high);
    law_word_is_a_number(low);
    lemma_number_splits(be32(high), be32(low));
}

/// Nothing holds no fields.
pub broadcast proof fn lemma_nothing_holds_no_fields()
    ensures
        #[trigger] holds(Seq::<u8>::empty(), Fields::Start),
{
}

/// A number of four bytes behind fields is one field more.
pub broadcast proof fn lemma_word_joins(s: Seq<u8>, before: Box<Fields>, value: u32)
    requires
        holds(s, *before),
    ensures
        #[trigger] holds(s + be32(value), Fields::Word(before, value)),
{
    let all = s + be32(value);
    law_word_is_a_number(value);
    assert(all.skip(all.len() - 4) =~= be32(value));
    assert(all.take(all.len() - 4) =~= s);
}

/// A number of four bytes alone is one field.
pub broadcast proof fn lemma_first_word(value: u32)
    ensures
        #[trigger] holds(be32(value), Fields::Word(Box::new(Fields::Start), value)),
{
    lemma_word_joins(Seq::empty(), Box::new(Fields::Start), value);
    assert(Seq::<u8>::empty() + be32(value) =~= be32(value));
}

/// A number of eight bytes behind fields is one field more.
pub broadcast proof fn lemma_hyper_joins(s: Seq<u8>, before: Box<Fields>, value: u64)
    requires
        holds(s, *before),
    ensures
        #[trigger] holds(s + be64(value), Fields::Hyper(before, value)),
{
    let all = s + be64(value);
    law_hyper_is_a_number(value);
    assert(all.skip(all.len() - 8) =~= be64(value));
    assert(all.take(all.len() - 8) =~= s);
}

/// A number of eight bytes alone is one field.
pub broadcast proof fn lemma_first_hyper(value: u64)
    ensures
        #[trigger] holds(be64(value), Fields::Hyper(Box::new(Fields::Start), value)),
{
    lemma_hyper_joins(Seq::empty(), Box::new(Fields::Start), value);
    assert(Seq::<u8>::empty() + be64(value) =~= be64(value));
}

/// Bytes behind fields are one field more.
pub broadcast proof fn lemma_bytes_join(s: Seq<u8>, before: Box<Fields>, value: Seq<u8>)
    requires
        holds(s, *before),
    ensures
        #[trigger] holds(s + value, Fields::Bytes(before, value)),
{
    let all = s + value;
    assert(all.skip(all.len() - value.len()) =~= value);
    assert(all.take(all.len() - value.len()) =~= s);
}

/// Bytes alone are one field.
pub broadcast proof fn lemma_first_bytes(value: Seq<u8>)
    ensures
        #[trigger] holds(value, Fields::Bytes(Box::new(Fields::Start), value)),
{
    lemma_bytes_join(Seq::empty(), Box::new(Fields::Start), value);
    assert(Seq::<u8>::empty() + value =~= value);
}

/// Counted data behind fields is one field more.
pub broadcast proof fn lemma_counted_joins(s: Seq<u8>, before: Box<Fields>, value: Seq<u8>)
    requires
        holds(s, *before),
        value.len() <= u32::MAX,
    ensures
        #[trigger] holds(s + opaque(value), Fields::Counted(before, value)),
{
    let all = s + opaque(value);
    let size = 4 + (value.len() + 3) / 4 * 4;
    let start = all.len() - size;
    law_word_is_a_number(value.len() as u32);
    assert(opaque(value).len() == size);
    assert(all.subrange(start, start + 4) =~= be32(value.len() as u32));
    assert(all.subrange(start + 4, start + 4 + value.len()) =~= value);
    assert(all.take(start) =~= s);
}

/// Counted data alone is one field.
pub broadcast proof fn lemma_first_counted(value: Seq<u8>)
    requires
        value.len() <= u32::MAX,
    ensures
        #[trigger] holds(opaque(value), Fields::Counted(Box::new(Fields::Start), value)),
{
    lemma_counted_joins(Seq::empty(), Box::new(Fields::Start), value);
    assert(Seq::<u8>::empty() + opaque(value) =~= opaque(value));
}

proof fn lemma_words(values: Seq<u32>)
    ensures
        words(values).len() == 4 * values.len(),
        forall|i: int|
            0 <= i < values.len() ==> number(words(values).subrange(4 * i, 4 * i + 4))
                == #[trigger] values[i],
    decreases values.len(),
{
    if values.len() > 0 {
        let rest = words(values.drop_last());
        lemma_words(values.drop_last());
        law_word_is_a_number(values.last());
        assert forall|i: int| 0 <= i < values.len() implies number(
            words(values).subrange(4 * i, 4 * i + 4),
        ) == #[trigger] values[i] by {
            if i < values.len() - 1 {
                assert(values[i] == values.drop_last()[i]);
                assert(words(values).subrange(4 * i, 4 * i + 4) =~= rest.subrange(
                    4 * i,
                    4 * i + 4,
                ));
            } else {
                assert(words(values).subrange(4 * i, 4 * i + 4) =~= be32(values.last()));
            }
        }
    }
}

/// Numbers alone are one field.
pub broadcast proof fn lemma_only_words(values: Seq<u32>)
    ensures
        #[trigger] holds(words(values), Fields::Words(Box::new(Fields::Start), values)),
{
    let s = words(values);
    lemma_words(values);
    let start = s.len() - 4 * values.len();
    assert(holds(s.take(start), Fields::Start));
    assert forall|i: int| 0 <= i < values.len() implies number(
        s.subrange(start + 4 * i, start + 4 * i + 4),
    ) == #[trigger] values[i] by {
        assert(number(s.subrange(4 * i, 4 * i + 4)) == values[i]);
    }
}

/// A counted list of numbers behind fields is one field more.
pub broadcast proof fn lemma_list_joins(s: Seq<u8>, before: Box<Fields>, values: Seq<u32>)
    requires
        holds(s, *before),
    ensures
        #[trigger] holds(
            s + bitmap4(values),
            Fields::Words(Box::new(Fields::Word(before, values.len() as u32)), values),
        ),
{
    let head = s + be32(values.len() as u32);
    let all = s + bitmap4(values);
    let start = all.len() - 4 * values.len();
    lemma_word_joins(s, before, values.len() as u32);
    lemma_words(values);
    assert(all =~= head + words(values));
    assert(all.take(start) =~= head);
    assert forall|i: int| 0 <= i < values.len() implies number(
        all.subrange(start + 4 * i, start + 4 * i + 4),
    ) == #[trigger] values[i] by {
        assert(all.subrange(start + 4 * i, start + 4 * i + 4) =~= words(values).subrange(
            4 * i,
            4 * i + 4,
        ));
    }
}

/// A counted list of numbers alone is one field.
pub broadcast proof fn lemma_first_list(values: Seq<u32>)
    ensures
        #[trigger] holds(
            bitmap4(values),
            Fields::Words(
                Box::new(Fields::Word(Box::new(Fields::Start), values.len() as u32)),
                values,
            ),
        ),
{
    lemma_list_joins(Seq::empty(), Box::new(Fields::Start), values);
    assert(Seq::<u8>::empty() + bitmap4(values) =~= bitmap4(values));
}

/// How written numbers and data are read, field by field.
pub broadcast group group_fields {
    lemma_nothing_holds_no_fields,
    lemma_word_joins,
    lemma_first_word,
    lemma_hyper_joins,
    lemma_first_hyper,
    lemma_bytes_join,
    lemma_first_bytes,
    lemma_counted_joins,
    lemma_first_counted,
    lemma_only_words,
    lemma_list_joins,
    lemma_first_list,
}

/// Parts may be put together from either end.
pub proof fn lemma_regroup(a: Seq<u8>, b: Seq<u8>, c: Seq<u8>)
    ensures
        (a + b) + c == a + (b + c),
{
    assert((a + b) + c =~= a + (b + c));
}

/// A number of four bytes is read from the front.
pub broadcast proof fn lemma_front_word(value: u32, tail: Seq<u8>)
    ensures
        #[trigger] word(be32(value) + tail) == value,
{
    lemma_word_of_be32(value, tail);
}

/// A number of four bytes is read alone.
pub broadcast proof fn lemma_only_word(value: u32)
    ensures
        #[trigger] word(be32(value)) == value,
{
    lemma_word_of_be32(value, Seq::empty());
    assert(be32(value) + Seq::<u8>::empty() =~= be32(value));
}

/// A number of eight bytes is read from the front.
pub broadcast proof fn lemma_front_hyper(value: u64, tail: Seq<u8>)
    ensures
        #[trigger] hyper(be64(value) + tail) == value,
{
    lemma_hyper_of_be64(value, tail);
}

/// The length of counted data is read from the front.
pub broadcast proof fn lemma_front_count(data: Seq<u8>, tail: Seq<u8>)
    requires
        data.len() <= u32::MAX,
    ensures
        #[trigger] word(opaque(data) + tail) == data.len(),
{
    assert(opaque(data) + tail =~= be32(data.len() as u32) + (fixed_opaque(data) + tail));
    lemma_word_of_be32(data.len() as u32, fixed_opaque(data) + tail);
}

/// Counted data stands behind its length.
pub broadcast proof fn lemma_behind_count(data: Seq<u8>, tail: Seq<u8>)
    ensures
        #[trigger] (opaque(data) + tail).skip(4) == fixed_opaque(data) + tail,
{
    assert((opaque(data) + tail).skip(4) =~= fixed_opaque(data) + tail);
}

/// The data before its padding.
pub broadcast proof fn lemma_data_before_padding(data: Seq<u8>, tail: Seq<u8>, len: int)
    requires
        len == data.len(),
    ensures
        #[trigger] (fixed_opaque(data) + tail).take(len) == data,
{
    assert((fixed_opaque(data) + tail).take(len) =~= data);
}

/// How many numbers a list holds is read from the front.
pub broadcast proof fn lemma_front_list_count(values: Seq<u32>, tail: Seq<u8>)
    requires
        values.len() <= u32::MAX,
    ensures
        #[trigger] word(bitmap4(values) + tail) == values.len(),
{
    assert(bitmap4(values) + tail =~= be32(values.len() as u32) + (words(values) + tail));
    lemma_word_of_be32(values.len() as u32, words(values) + tail);
}

/// A list of numbers stands behind how many they are.
pub broadcast proof fn lemma_behind_list_count(values: Seq<u32>, tail: Seq<u8>)
    ensures
        #[trigger] (bitmap4(values) + tail).skip(4) == words(values) + tail,
{
    assert((bitmap4(values) + tail).skip(4) =~= words(values) + tail);
}

/// What follows the first part is found behind it.
pub broadcast proof fn lemma_behind_first(first: Seq<u8>, rest: Seq<u8>, at: int)
    requires
        first.len() <= at <= first.len() + rest.len(),
    ensures
        #[trigger] (first + rest).skip(at) == rest.skip(at - first.len()),
{
    assert((first + rest).skip(at) =~= rest.skip(at - first.len()));
}

/// The first part is found at the front.
pub broadcast proof fn lemma_first_part(first: Seq<u8>, rest: Seq<u8>, len: int)
    requires
        len == first.len(),
    ensures
        #[trigger] (first + rest).take(len) == first,
{
    assert((first + rest).take(len) =~= first);
}

/// Behind nothing stands everything.
pub broadcast proof fn lemma_behind_nothing(s: Seq<u8>)
    ensures
        #[trigger] s.skip(0) == s,
{
    assert(s.skip(0) =~= s);
}

/// How long written numbers and data are.
pub broadcast proof fn lemma_word_len(value: u32)
    ensures
        #[trigger] be32(value).len() == 4,
{
}

pub broadcast proof fn lemma_hyper_len(value: u64)
    ensures
        #[trigger] be64(value).len() == 8,
{
}

pub broadcast proof fn lemma_fixed_len(data: Seq<u8>)
    ensures
        #[trigger] fixed_opaque(data).len() == padded(data.len()),
        padded(data.len()) >= data.len(),
{
}

pub broadcast proof fn lemma_counted_len(data: Seq<u8>)
    ensures
        #[trigger] opaque(data).len() == 4 + padded(data.len()),
        padded(data.len()) >= data.len(),
{
}

pub broadcast proof fn lemma_words_len(values: Seq<u32>)
    ensures
        #[trigger] words(values).len() == 4 * values.len(),
{
    lemma_words(values);
}

pub broadcast proof fn lemma_list_len(values: Seq<u32>)
    ensures
        #[trigger] bitmap4(values).len() == 4 + 4 * values.len(),
{
    lemma_words(values);
}

/// How what was written is read from the front.
pub broadcast group group_front {
    lemma_front_word,
    lemma_only_word,
    lemma_front_hyper,
    lemma_front_count,
    lemma_behind_count,
    lemma_data_before_padding,
    lemma_front_list_count,
    lemma_behind_list_count,
    lemma_behind_first,
    lemma_first_part,
    lemma_behind_nothing,
    lemma_word_len,
    lemma_hyper_len,
    lemma_fixed_len,
    lemma_counted_len,
    lemma_words_len,
    lemma_list_len,
}

/// The numbers of a list are found one behind the other.
pub proof fn lemma_listed_word(values: Seq<u32>, tail: Seq<u8>, i: int)
    requires
        0 <= i < values.len(),
    ensures
        word((words(values) + tail).skip(4 * i)) == values[i],
    decreases values.len(),
{
    let last = values.len() - 1;
    let front = words(values.drop_last());
    lemma_words(values);
    lemma_words(values.drop_last());
    if i == last {
        lemma_word_of_be32(values.last(), tail);
        assert((words(values) + tail).skip(4 * i) =~= be32(values.last()) + tail);
    } else {
        lemma_listed_word(values.drop_last(), be32(values.last()) + tail, i);
        assert(words(values) + tail =~= front + (be32(values.last()) + tail));
    }
}


} // verus!
