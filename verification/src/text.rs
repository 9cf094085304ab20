//! Text: the numbers and lists that messages and owner names are made of.

use vstd::prelude::*;
use vstd::string::StringExecFns;
use vstd::utf8::{decode_utf8, valid_utf8};

verus! {

/// One digit of a number in base ten or sixteen.
pub open spec fn digit(d: nat) -> char {
    "0123456789abcdef"@[d as int]
}

/// A number in base ten.
pub open spec fn decimal(n: nat) -> Seq<char>
    decreases n,
{
    if n < 10 {
        seq![digit(n)]
    } else {
        decimal(n / 10).push(digit(n % 10))
    }
}

/// The `width` low hexadecimal digits of a number, zeros in front.
pub open spec fn hex_padded(n: nat, width: nat) -> Seq<char>
    decreases width,
{
    if width == 0 {
        Seq::empty()
    } else {
        hex_padded(n / 16, (width - 1) as nat).push(digit(n % 16))
    }
}

/// A number in base sixteen without zeros in front.
pub open spec fn hex(n: nat) -> Seq<char>
    decreases n,
{
    if n < 16 {
        seq![digit(n)]
    } else {
        hex(n / 16).push(digit(n % 16))
    }
}

/// Numbers in base ten with a comma and a space between them.
pub open spec fn comma_separated(values: Seq<u32>) -> Seq<char>
    decreases values.len(),
{
    if values.len() == 0 {
        Seq::empty()
    } else if values.len() == 1 {
        decimal(values[0] as nat)
    } else {
        comma_separated(values.drop_last()) + ", "@ + decimal(values.last() as nat)
    }
}

fn push_digit(out: &mut String, d: u8)
    requires
        d < 16,
    ensures
        final(out)@ == old(out)@.push(digit(d as nat)),
{
    proof {
        reveal_strlit("0123456789abcdef");
        reveal_strlit("0");
        reveal_strlit("1");
        reveal_strlit("2");
        reveal_strlit("3");
        reveal_strlit("4");
        reveal_strlit("5");
        reveal_strlit("6");
        reveal_strlit("7");
        reveal_strlit("8");
        reveal_strlit("9");
        reveal_strlit("a");
        reveal_strlit("b");
        reveal_strlit("c");
        reveal_strlit("d");
        reveal_strlit("e");
        reveal_strlit("f");
    }
    let text = match d {
        0 => "0",
        1 => "1",
        2 => "2",
        3 => "3",
        4 => "4",
        5 => "5",
        6 => "6",
        7 => "7",
        8 => "8",
        9 => "9",
        10 => "a",
        11 => "b",
        12 => "c",
        13 => "d",
        14 => "e",
        _ => "f",
    };
    out.append(text);
    assert(out@ =~= old(out)@.push(digit(d as nat)));
}

/// The characters of a text.
pub fn characters(text: &str) -> (out: Vec<char>)
    ensures
        out@ == text@,
{
    let mut out: Vec<char> = Vec::new();
    for c in iter: text.chars()
        invariant
            iter.seq() == text@,
            out@ == text@.take(iter.index() as int),
    {
        out.push(c);
        assert(out@ =~= text@.take(iter.index() + 1));
    }
    assert(text@.take(text@.len() as int) =~= text@);
    out
}

/// Whether two texts are the same.
pub fn same_text(left: &str, right: &str) -> (same: bool)
    ensures
        same == (left@ == right@),
{
    String::from_str(left) == String::from_str(right)
}

/// Appends a number in base ten.
pub fn push_decimal(out: &mut String, n: u64)
    ensures
        final(out)@ == old(out)@ + decimal(n as nat),
    decreases n,
{
    if n >= 10 {
        push_decimal(out, n / 10);
    }
    push_digit(out, (n % 10) as u8);
    assert(out@ =~= old(out)@ + decimal(n as nat));
}

/// Appends the `width` low hexadecimal digits of a number.
pub fn push_hex_padded(out: &mut String, n: u64, width: u8)
    ensures
        final(out)@ == old(out)@ + hex_padded(n as nat, width as nat),
    decreases width,
{
    if width > 0 {
        push_hex_padded(out, n / 16, width - 1);
        push_digit(out, (n % 16) as u8);
    }
    assert(out@ =~= old(out)@ + hex_padded(n as nat, width as nat));
}

/// Appends a number in base sixteen.
pub fn push_hex(out: &mut String, n: u64)
    ensures
        final(out)@ == old(out)@ + hex(n as nat),
    decreases n,
{
    if n >= 16 {
        push_hex(out, n / 16);
    }
    push_digit(out, (n % 16) as u8);
    assert(out@ =~= old(out)@ + hex(n as nat));
}

/// Appends numbers with a comma and a space between them.
pub fn push_list(out: &mut String, values: &[u32])
    ensures
        final(out)@ == old(out)@ + comma_separated(values@),
{
    let mut i: usize = 0;
    assert(values@.take(0) =~= Seq::empty());
    assert(out@ =~= old(out)@ + comma_separated(values@.take(0)));
    while i < values.len()
        invariant
            i <= values@.len(),
            out@ == old(out)@ + comma_separated(values@.take(i as int)),
        decreases values.len() - i,
    {
        if i > 0 {
            out.append(", ");
        }
        push_decimal(out, values[i] as u64);
        i += 1;
        assert(values@.take(i as int).drop_last() =~= values@.take(i - 1));
        assert(out@ =~= old(out)@ + comma_separated(values@.take(i as int)));
    }
    assert(values@.take(values@.len() as int) =~= values@);
}

/// Two pieces of text in one.
pub fn concat2(a: &str, b: &str) -> (out: String)
    ensures
        out@ == a@ + b@,
{
    let mut out = String::from_str(a);
    out.append(b);
    out
}

/// Text with a number after it.
pub fn with_number(before: &str, n: u64) -> (out: String)
    ensures
        out@ == before@ + decimal(n as nat),
{
    let mut out = String::from_str(before);
    push_decimal(&mut out, n);
    out
}

/// Text with a number in the middle.
pub fn around_number(before: &str, n: u64, after: &str) -> (out: String)
    ensures
        out@ == before@ + decimal(n as nat) + after@,
{
    let mut out = with_number(before, n);
    out.append(after);
    out
}

/// How `FromUtf8Error` describes the place where a byte string stops being UTF-8.
pub uninterp spec fn utf8_error_text(bytes: Seq<u8>) -> Seq<char>;

/// `String::from_utf8`: text from its UTF-8 bytes, or the error's own description where
/// the bytes are not UTF-8. What the description says is left to [`utf8_error_text`].
#[verifier::external_body]
pub(crate) fn utf8_text(bytes: Vec<u8>) -> (text: std::result::Result<String, String>)
    ensures
        valid_utf8(bytes@) ==> text is Ok && text->Ok_0@ == decode_utf8(bytes@),
        !valid_utf8(bytes@) ==> text is Err && text->Err_0@ == utf8_error_text(bytes@),
{
    String::from_utf8(bytes).map_err(|error| error.to_string())
}

/// The number that a digit stands for: the figures, then the small letters from `a` on.
pub open spec fn digit_value(c: char) -> nat {
    if '0' <= c <= '9' {
        (c as u32 - '0' as u32) as nat
    } else {
        (c as u32 - 'a' as u32 + 10) as nat
    }
}

/// The number that digits stand for in a base, the most significant one first.
pub open spec fn text_value(digits: Seq<char>, base: nat) -> nat
    decreases digits.len(),
{
    if digits.len() == 0 {
        0
    } else {
        text_value(digits.drop_last(), base) * base + digit_value(digits.last())
    }
}

/// A digit stands for the number that it was made from.
pub proof fn law_digit_is_read_back(n: nat)
    requires
        n < 16,
    ensures
        digit_value(digit(n)) == n,
        n < 10 ==> '0' <= digit(n) <= '9',
{
    reveal_strlit("0123456789abcdef");
}

/// A number in base ten stands for itself, and is not longer than it has to be.
pub proof fn law_decimal_is_read_back(n: nat)
    ensures
        text_value(decimal(n), 10) == n,
        decimal(n).len() > 0,
        n > 0 ==> digit_value(decimal(n)[0]) > 0,
        forall|i: int| 0 <= i < decimal(n).len() ==> '0' <= #[trigger] decimal(n)[i] <= '9',
    decreases n,
{
    if n < 10 {
        reveal_with_fuel(text_value, 2);
        law_digit_is_read_back(n);
        assert(decimal(n).drop_last() =~= Seq::<char>::empty());
    } else {
        law_decimal_is_read_back(n / 10);
        law_digit_is_read_back(n % 10);
        assert(decimal(n).drop_last() =~= decimal(n / 10));
        assert(decimal(n)[0] == decimal(n / 10)[0]);
        assert forall|i: int| 0 <= i < decimal(n).len() implies '0' <= #[trigger] decimal(n)[i]
            <= '9' by {
            if i < decimal(n / 10).len() {
                assert(decimal(n)[i] == decimal(n / 10)[i]);
            }
        }
    }
}

/// A number in base sixteen stands for itself, and is not longer than it has to be.
pub proof fn law_hex_is_read_back(n: nat)
    ensures
        text_value(hex(n), 16) == n,
        hex(n).len() > 0,
        n > 0 ==> digit_value(hex(n)[0]) > 0,
    decreases n,
{
    if n < 16 {
        reveal_with_fuel(text_value, 2);
        law_digit_is_read_back(n);
        assert(hex(n).drop_last() =~= Seq::<char>::empty());
    } else {
        law_hex_is_read_back(n / 16);
        law_digit_is_read_back(n % 16);
        assert(hex(n).drop_last() =~= hex(n / 16));
        assert(hex(n)[0] == hex(n / 16)[0]);
    }
}

/// Sixteen to the power of a number.
pub open spec fn sixteens(width: nat) -> nat
    decreases width,
{
    if width == 0 {
        1
    } else {
        16 * sixteens((width - 1) as nat)
    }
}

/// A number in base sixteen with zeros in front has the width that was asked for, and stands
/// for itself where it fits.
pub proof fn law_padded_hex_is_read_back(n: nat, width: nat)
    requires
        n < sixteens(width),
    ensures
        hex_padded(n, width).len() == width,
        text_value(hex_padded(n, width), 16) == n,
    decreases width,
{
    if width > 0 {
        law_padded_hex_is_read_back(n / 16, (width - 1) as nat);
        law_digit_is_read_back(n % 16);
        assert(hex_padded(n, width).drop_last() =~= hex_padded(n / 16, (width - 1) as nat));
    }
}

/// Sixteen digits hold every number of eight bytes.
pub proof fn lemma_sixteen_digits_hold_a_hyper(n: u64)
    ensures
        n < sixteens(16),
{
    reveal_with_fuel(sixteens, 17);
}


} // verus!
