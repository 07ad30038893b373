//! Rendering of integers as decimal and hexadecimal text.
use vstd::prelude::*;
use vstd::string::*;

verus! {

/// The character of the digit `d` (`0 <= d < 16`); letters are upper case when `upper`.
pub open spec fn digit_char(d: int, upper: bool) -> char {
    if d < 10 {
        (48 + d) as char
    } else if upper {
        (55 + d) as char
    } else {
        (87 + d) as char
    }
}

/// The value of a hexadecimal digit character (either case); -1 for any other character.
pub open spec fn digit_value(c: char) -> int {
    if '0' <= c && c <= '9' {
        c as int - 48
    } else if 'a' <= c && c <= 'f' {
        c as int - 87
    } else if 'A' <= c && c <= 'F' {
        c as int - 55
    } else {
        -1
    }
}

/// Reading a digit character back gives the digit.
pub proof fn lemma_digit_value_of_digit_char(d: int, upper: bool)
    requires
        0 <= d < 16,
    ensures
        digit_value(digit_char(d, upper)) == d,
{
}

/// Reading the two digits of a byte back gives the byte.
pub proof fn lemma_hex_byte_decodes(b: u8, upper: bool)
    ensures
        hex_byte(b, upper).len() == 2,
        16 * digit_value(hex_byte(b, upper)[0]) + digit_value(hex_byte(b, upper)[1]) == b,
{
    lemma_digit_value_of_digit_char(b as int / 16, upper);
    lemma_digit_value_of_digit_char(b as int % 16, upper);
}

/// The decimal digits of `n`, most significant first, with no leading zeros.
pub open spec fn decimal(n: nat) -> Seq<char>
    decreases n,
{
    if n < 10 {
        seq![digit_char(n as int, false)]
    } else {
        decimal(n / 10).push(digit_char((n % 10) as int, false))
    }
}

/// The hexadecimal digits of `n`, most significant first, with no leading zeros.
pub open spec fn hex(n: nat, upper: bool) -> Seq<char>
    decreases n,
{
    if n < 16 {
        seq![digit_char(n as int, upper)]
    } else {
        hex(n / 16, upper).push(digit_char((n % 16) as int, upper))
    }
}

/// The last `width` hexadecimal digits of `n`, zero padded.
pub open spec fn hex_fixed(n: nat, width: nat, upper: bool) -> Seq<char>
    decreases width,
{
    if width == 0 {
        Seq::empty()
    } else {
        hex_fixed(n / 16, (width - 1) as nat, upper).push(digit_char((n % 16) as int, upper))
    }
}

/// The last two digits of a zero-padded rendering are those of its low byte.
pub proof fn lemma_hex_fixed_low_byte(n: nat, width: nat, upper: bool)
    ensures
        hex_fixed(n, width + 2, upper) == hex_fixed(n / 256, width, upper) + hex_byte(
            (n % 256) as u8,
            upper,
        ),
{
    assert(n / 16 / 16 == n / 256) by (nonlinear_arith);
    assert((n % 256) / 16 == (n / 16) % 16) by (nonlinear_arith);
    assert((n % 256) % 16 == n % 16) by (nonlinear_arith);
    let low = hex_byte((n % 256) as u8, upper);
    assert(hex_fixed(n, width + 2, upper) == hex_fixed(n / 16, width + 1, upper).push(
        digit_char((n % 16) as int, upper),
    ));
    assert(hex_fixed(n / 16, width + 1, upper) == hex_fixed(n / 16 / 16, width, upper).push(
        digit_char(((n / 16) % 16) as int, upper),
    ));
    assert(hex_fixed(n, width + 2, upper) =~= hex_fixed(n / 256, width, upper) + low);
}

/// The eight-digit rendering of a 32-bit value is that of its four bytes, most significant
/// first.
pub proof fn lemma_hex_fixed_u32(d: u32, upper: bool)
    ensures
        hex_fixed(d as nat, 8, upper) == hex_byte((d / 16777216) as u8, upper) + hex_byte(
            ((d / 65536) % 256) as u8,
            upper,
        ) + hex_byte(((d / 256) % 256) as u8, upper) + hex_byte((d % 256) as u8, upper),
{
    let n = d as nat;
    lemma_hex_fixed_low_byte(n, 6, upper);
    lemma_hex_fixed_low_byte(n / 256, 4, upper);
    lemma_hex_fixed_low_byte(n / 256 / 256, 2, upper);
    lemma_hex_fixed_low_byte(n / 256 / 256 / 256, 0, upper);
    assert(n / 256 / 256 == n / 65536) by (nonlinear_arith);
    assert(n / 256 / 256 / 256 == n / 16777216) by (nonlinear_arith);
    assert(n / 16777216 < 256) by (nonlinear_arith)
        requires
            n < 4294967296,
    ;
    assert(hex_fixed(0, 0, upper) =~= Seq::<char>::empty());
    assert(hex_fixed(d as nat, 8, upper) =~= hex_byte((d / 16777216) as u8, upper) + hex_byte(
        ((d / 65536) % 256) as u8,
        upper,
    ) + hex_byte(((d / 256) % 256) as u8, upper) + hex_byte((d % 256) as u8, upper));
}

/// The four-digit rendering of a 16-bit value is that of its two bytes, most significant
/// first.
pub proof fn lemma_hex_fixed_u16(d: u16, upper: bool)
    ensures
        hex_fixed(d as nat, 4, upper) == hex_byte((d / 256) as u8, upper) + hex_byte(
            (d % 256) as u8,
            upper,
        ),
{
    let n = d as nat;
    lemma_hex_fixed_low_byte(n, 2, upper);
    lemma_hex_fixed_low_byte(n / 256, 0, upper);
    assert(n / 256 < 256) by (nonlinear_arith)
        requires
            n < 65536,
    ;
    assert(hex_fixed(0, 0, upper) =~= Seq::<char>::empty());
    assert(hex_fixed(d as nat, 4, upper) =~= hex_byte((d / 256) as u8, upper) + hex_byte(
        (d % 256) as u8,
        upper,
    ));
}

/// The two hexadecimal digits of a byte, zero padded.
pub open spec fn hex_byte(b: u8, upper: bool) -> Seq<char> {
    seq![digit_char(b as int / 16, upper), digit_char(b as int % 16, upper)]
}

/// A one-character string holding the digit `d`.
fn digit_str(d: u8, upper: bool) -> (s: &'static str)
    requires
        d < 16,
    ensures
        s@ == seq![digit_char(d as int, upper)],
{
    proof {
        reveal_strlit("0");
        reveal_strlit("1");
        reveal_strlit("2");
        reveal_strlit("3");
        reveal_strlit("4");
        reveal_strlit("5");
        reveal_strlit("6");
        reveal_strlit("7");
        reveal_strlit("8");
        reveal_strlit("9");
        reveal_strlit("a");
        reveal_strlit("b");
        reveal_strlit("c");
        reveal_strlit("d");
        reveal_strlit("e");
        reveal_strlit("f");
        reveal_strlit("A");
        reveal_strlit("B");
        reveal_strlit("C");
        reveal_strlit("D");
        reveal_strlit("E");
        reveal_strlit("F");
    }
    match d {
        0 => "0",
        1 => "1",
        2 => "2",
        3 => "3",
        4 => "4",
        5 => "5",
        6 => "6",
        7 => "7",
        8 => "8",
        9 => "9",
        10 => if upper { "A" } else { "a" },
        11 => if upper { "B" } else { "b" },
        12 => if upper { "C" } else { "c" },
        13 => if upper { "D" } else { "d" },
        14 => if upper { "E" } else { "e" },
        _ => if upper { "F" } else { "f" },
    }
}

/// Appends the decimal digits of `n` to `s`.
pub fn push_decimal(s: &mut String, n: u64)
    ensures
        final(s)@ == old(s)@ + decimal(n as nat),
    decreases n,
{
    if n >= 10 {
        push_decimal(s, n / 10);
    }
    s.append(digit_str((n % 10) as u8, false));
    assert(decimal(n as nat) == if n < 10 {
        seq![digit_char(n as int, false)]
    } else {
        decimal((n / 10) as nat).push(digit_char((n % 10) as int, false))
    });
}

/// Appends the hexadecimal digits of `n` to `s`, with no leading zeros.
pub fn push_hex(s: &mut String, n: u64, upper: bool)
    ensures
        final(s)@ == old(s)@ + hex(n as nat, upper),
    decreases n,
{
    if n >= 16 {
        push_hex(s, n / 16, upper);
    }
    s.append(digit_str((n % 16) as u8, upper));
    assert(hex(n as nat, upper) == if n < 16 {
        seq![digit_char(n as int, upper)]
    } else {
        hex((n / 16) as nat, upper).push(digit_char((n % 16) as int, upper))
    });
}

/// Appends the two zero-padded hexadecimal digits of `b` to `s`.
pub fn push_hex_byte(s: &mut String, b: u8, upper: bool)
    ensures
        final(s)@ == old(s)@ + hex_byte(b, upper),
{
    s.append(digit_str(b / 16, upper));
    s.append(digit_str(b % 16, upper));
}

/// The decimal rendering of `n`.
pub fn decimal_string(n: u64) -> (s: String)
    ensures
        s@ == decimal(n as nat),
{
    let mut s = String::new();
    push_decimal(&mut s, n);
    s
}

} // verus!
