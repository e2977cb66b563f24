//! Text that messages are made of.

use vstd::prelude::*;
use vstd::string::{StrSliceExecFns, StringExecFns};

verus! {

/// The character of a decimal digit.
pub open spec fn digit_char(digit: nat) -> char {
    (48 + digit) as char
}

/// A number in decimal.
pub open spec fn decimal(n: nat) -> Seq<char>
    decreases n,
{
    if n < 10 {
        seq![digit_char(n)]
    } else {
        decimal(n / 10).push(digit_char(n % 10))
    }
}

/// The character of a hexadecimal digit.
pub open spec fn hex_char(digit: nat) -> char {
    if digit < 10 {
        digit_char(digit)
    } else {
        (87 + digit) as char
    }
}

/// A number in hexadecimal.
pub open spec fn hexadecimal(n: nat) -> Seq<char>
    decreases n,
{
    if n < 16 {
        seq![hex_char(n)]
    } else {
        hexadecimal(n / 16).push(hex_char(n % 16))
    }
}

/// Whether two texts are the same.
pub fn same_text(a: &str, b: &str) -> (same: bool)
    ensures
        same == (a@ == b@),
{
    let left: String = a.to_owned();
    let right: String = b.to_owned();
    left.eq(&right)
}

fn push_digit(out: &mut String, digit: u64)
    requires
        digit < 10,
    ensures
        final(out)@ == old(out)@.push(digit_char(digit as nat)),
{
    let text: &str = match digit {
        0 => "0",
        1 => "1",
        2 => "2",
        3 => "3",
        4 => "4",
        5 => "5",
        6 => "6",
        7 => "7",
        8 => "8",
        _ => "9",
    };
    proof {
        reveal_strlit("0");
        reveal_strlit("1");
        reveal_strlit("2");
        reveal_strlit("3");
        reveal_strlit("4");
        reveal_strlit("5");
        reveal_strlit("6");
        reveal_strlit("7");
        reveal_strlit("8");
        reveal_strlit("9");
    }
    let ghost before = out@;
    out.append(text);
    assert(out@ =~= before.push(digit_char(digit as nat)));
}

/// Appends a number in decimal.
pub fn push_decimal(out: &mut String, n: u64)
    ensures
        final(out)@ == old(out)@ + decimal(n as nat),
    decreases n,
{
    let ghost before = out@;
    if n < 10 {
        push_digit(out, n);
        assert(out@ =~= before + decimal(n as nat));
    } else {
        push_decimal(out, n / 10);
        push_digit(out, n % 10);
        assert(out@ =~= before + decimal(n as nat));
    }
}

fn push_hex_digit(out: &mut String, digit: u64)
    requires
        digit < 16,
    ensures
        final(out)@ == old(out)@.push(hex_char(digit as nat)),
{
    if digit < 10 {
        push_digit(out, digit);
        return;
    }
    let text: &str = match digit {
        10 => "a",
        11 => "b",
        12 => "c",
        13 => "d",
        14 => "e",
        _ => "f",
    };
    proof {
        reveal_strlit("a");
        reveal_strlit("b");
        reveal_strlit("c");
        reveal_strlit("d");
        reveal_strlit("e");
        reveal_strlit("f");
    }
    let ghost before = out@;
    out.append(text);
    assert(out@ =~= before.push(hex_char(digit as nat)));
}

/// Appends a number in hexadecimal.
pub fn push_hexadecimal(out: &mut String, n: u64)
    ensures
        final(out)@ == old(out)@ + hexadecimal(n as nat),
    decreases n,
{
    let ghost before = out@;
    if n < 16 {
        push_hex_digit(out, n);
    } else {
        push_hexadecimal(out, n / 16);
        push_hex_digit(out, n % 16);
    }
    assert(out@ =~= before + hexadecimal(n as nat));
}

/// `before`, then a number in decimal.
pub fn with_number(before: &str, n: u64) -> (text: String)
    ensures
        text@ == before@ + decimal(n as nat),
{
    let mut text: String = before.to_owned();
    push_decimal(&mut text, n);
    text
}

/// Whether a text holds another at a position.
fn stands_at(text: &str, part: &str, at: usize) -> (stands: bool)
    requires
        at + part@.len() <= text@.len(),
    ensures
        stands == (text@.subrange(at as int, at + part@.len()) == part@),
{
    let length: usize = text.unicode_len();
    let count: usize = part.unicode_len();
    let ghost found = text@.subrange(at as int, at + part@.len());
    let mut i: usize = 0;
    while i < count
        invariant
            i <= count == part@.len(),
            at + part@.len() <= text@.len(),
            text@.len() == length,
            found == text@.subrange(at as int, at + part@.len()),
            forall|j: int| 0 <= j < i ==> found[j] == #[trigger] part@[j],
        decreases count - i,
    {
        if text.get_char(at + i) != part.get_char(i) {
            assert(found[i as int] != part@[i as int]);
            return false;
        }
        i = i + 1;
    }
    assert(found =~= part@);
    true
}

/// Whether a text starts with another.
pub fn starts_with(text: &str, part: &str) -> (starts: bool)
    ensures
        starts == part@.is_prefix_of(text@),
{
    let length: usize = text.unicode_len();
    let count: usize = part.unicode_len();
    count <= length && stands_at(text, part, 0)
}

/// Whether a text ends with another.
pub fn ends_with(text: &str, part: &str) -> (ends: bool)
    ensures
        ends == part@.is_suffix_of(text@),
{
    let length: usize = text.unicode_len();
    let count: usize = part.unicode_len();
    count <= length && stands_at(text, part, length - count)
}

/// The decimal digits of a number are digits, without a leading zero, and read
/// from the left they give the number back.
pub proof fn law_decimal_reads_back(n: nat)
    ensures
        decimal(n).len() > 0,
        forall|i: int| 0 <= i < decimal(n).len() ==> '0' <= #[trigger] decimal(n)[i] <= '9',
        n > 0 ==> decimal(n)[0] != '0',
        decimal(n).fold_left(0int, |read: int, c: char| 10 * read + (c as int - '0' as int)) == n,
    decreases n,
{
    let step = |read: int, c: char| 10 * read + (c as int - '0' as int);
    if n < 10 {
        let digits = decimal(n);
        assert(digits.drop_last() =~= Seq::<char>::empty());
        assert(digits.drop_last().fold_left(0int, step) == 0);
        assert(digits.fold_left(0int, step) == step(digits.drop_last().fold_left(0int, step), digits.last()));
    } else {
        law_decimal_reads_back(n / 10);
        let digits = decimal(n);
        assert(digits.drop_last() =~= decimal(n / 10));
        assert(digits.fold_left(0int, step) == step(digits.drop_last().fold_left(0int, step), digits.last()));
    }
}

/// The hexadecimal digits of a number are lower-case digits, without a leading
/// zero, and read from the left they give the number back.
pub proof fn law_hexadecimal_reads_back(n: nat)
    ensures
        hexadecimal(n).len() > 0,
        forall|i: int|
            0 <= i < hexadecimal(n).len() ==> '0' <= #[trigger] hexadecimal(n)[i] <= '9' || 'a' <= hexadecimal(n)[i]
                <= 'f',
        n > 0 ==> hexadecimal(n)[0] != '0',
        hexadecimal(n).fold_left(
            0int,
            |read: int, c: char|
                16 * read + if c <= '9' {
                    c as int - '0' as int
                } else {
                    c as int - 'a' as int + 10
                },
        ) == n,
    decreases n,
{
    let step = |read: int, c: char|
        16 * read + if c <= '9' {
            c as int - '0' as int
        } else {
            c as int - 'a' as int + 10
        };
    if n < 16 {
        let digits = hexadecimal(n);
        assert(digits.drop_last() =~= Seq::<char>::empty());
        assert(digits.drop_last().fold_left(0int, step) == 0);
        assert(digits.fold_left(0int, step) == step(digits.drop_last().fold_left(0int, step), digits.last()));
    } else {
        law_hexadecimal_reads_back(n / 16);
        let digits = hexadecimal(n);
        assert(digits.drop_last() =~= hexadecimal(n / 16));
        assert(digits.fold_left(0int, step) == step(digits.drop_last().fold_left(0int, step), digits.last()));
    }
}

} // verus!
