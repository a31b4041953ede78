use vstd::prelude::*;

verus! {

/// The symbol of digit value `d` (for `0 <= d < 64`): `0`-`9`, then `A`-`Z`,
/// then `a`-`z`, then `-` and `_`.
pub open spec fn digit_symbol(d: int) -> char {
    if d < 10 {
        (d + 48) as char
    } else if d < 36 {
        (d - 10 + 65) as char
    } else if d < 62 {
        (d - 36 + 97) as char
    } else if d == 62 {
        '-'
    } else {
        '_'
    }
}

/// The digit value of an alphabet symbol; `-1` for a character outside the
/// alphabet.
pub open spec fn symbol_value(c: char) -> int {
    if '0' <= c <= '9' {
        c as int - 48
    } else if 'A' <= c <= 'Z' {
        c as int - 65 + 10
    } else if 'a' <= c <= 'z' {
        c as int - 97 + 36
    } else if c == '-' {
        62
    } else if c == '_' {
        63
    } else {
        -1
    }
}

/// Whether `c` is one of the 64 symbols of the alphabet.
pub open spec fn in_alphabet(c: char) -> bool {
    exists|d: int| 0 <= d < 64 && #[trigger] digit_symbol(d) == c
}

/// Symbols and digit values are in one-to-one correspondence: reading the
/// symbol of a digit gives the digit back.
pub proof fn lemma_symbol_value_inverts(d: int)
    requires
        0 <= d < 64,
    ensures
        symbol_value(digit_symbol(d)) == d,
        in_alphabet(digit_symbol(d)),
{
}

/// The symbol of digit value `d`.
pub fn digit_char(d: usize) -> (c: char)
    requires
        d < 64,
    ensures
        c == digit_symbol(d as int),
{
    let v = d as u8;
    if v < 10 {
        (48u8 + v) as char
    } else if v < 36 {
        (65u8 + (v - 10)) as char
    } else if v < 62 {
        (97u8 + (v - 36)) as char
    } else if v == 62 {
        '-'
    } else {
        '_'
    }
}

} // verus!
