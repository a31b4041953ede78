use vstd::prelude::*;

use crate::alphabet::{digit_char, digit_symbol, in_alphabet, lemma_symbol_value_inverts, symbol_value};

verus! {

/// Relies on `String::push`: the character is appended at the end.
pub assume_specification[ String::push ](s: &mut String, ch: char)
    ensures
        final(s)@ == old(s)@.push(ch),
;

/// The base-64 text of `v`: its digits, most significant first, with no
/// leading zero digit (zero itself is the single zero symbol).
pub open spec fn encoding(v: nat) -> Seq<char>
    decreases v,
{
    if v < 64 {
        seq![digit_symbol(v as int)]
    } else {
        encoding(v / 64).push(digit_symbol((v % 64) as int))
    }
}

/// The number that a base-64 text stands for, read most significant digit
/// first.
pub open spec fn decoding(s: Seq<char>) -> int
    decreases s.len(),
{
    if s.len() == 0 {
        0
    } else {
        decoding(s.drop_last()) * 64 + symbol_value(s.last())
    }
}

/// Converts `value` to its base-64 text, in time proportional to the number
/// of digits.
pub fn encode(value: usize) -> (r: String)
    ensures
        r@ == encoding(value as nat),
        r@.len() >= 1,
        value == 0 ==> r@ == seq![digit_symbol(0)],
{
    // Digits come out least significant first: `low` holds the symbols of
    // the digits taken so far, and `tail` the same symbols in text order.
    let mut rest: usize = value;
    let mut low: Vec<char> = Vec::new();
    let ghost mut tail: Seq<char> = Seq::empty();
    while rest >= 64
        invariant
            encoding(value as nat) == encoding(rest as nat) + tail,
            tail.len() == low@.len(),
            forall|i: int| 0 <= i < tail.len() ==> tail[i] == low@[low@.len() - 1 - i],
        decreases rest,
    {
        let c = digit_char(rest % 64);
        proof {
            let t2 = seq![c] + tail;
            assert(encoding(rest as nat) == encoding((rest / 64) as nat).push(c));
            assert(encoding(rest as nat) + tail =~= encoding((rest / 64) as nat) + t2);
            tail = t2;
        }
        low.push(c);
        rest = rest / 64;
    }
    // `rest` is now the leading digit; the others follow from the end of `low`.
    let mut out = String::new();
    out.push(digit_char(rest));
    let mut i: usize = low.len();
    while i > 0
        invariant
            i <= low@.len(),
            out@ == encoding(rest as nat) + tail.subrange(0, low@.len() - i),
            rest < 64,
            encoding(value as nat) == encoding(rest as nat) + tail,
            tail.len() == low@.len(),
            forall|k: int| 0 <= k < tail.len() ==> tail[k] == low@[low@.len() - 1 - k],
        decreases i,
    {
        out.push(low[i - 1]);
        i = i - 1;
        assert(out@ =~= encoding(rest as nat) + tail.subrange(0, low@.len() - i));
    }
    assert(tail.subrange(0, tail.len() as int) =~= tail);
    proof {
        lemma_encoding_nonempty(value as nat);
    }
    out
}

/// Every encoding has at least one symbol.
pub proof fn lemma_encoding_nonempty(v: nat)
    ensures
        encoding(v).len() >= 1,
    decreases v,
{
    if v >= 64 {
        lemma_encoding_nonempty(v / 64);
    }
}

/// Reading an encoding back gives the number that was encoded.
pub proof fn lemma_round_trip(v: nat)
    ensures
        decoding(encoding(v)) == v,
    decreases v,
{
    if v < 64 {
        lemma_symbol_value_inverts(v as int);
        let s = encoding(v);
        assert(s.drop_last() =~= Seq::<char>::empty());
        assert(decoding(s) == decoding(s.drop_last()) * 64 + symbol_value(s.last()));
    } else {
        lemma_round_trip(v / 64);
        lemma_symbol_value_inverts((v % 64) as int);
        let s = encoding(v);
        assert(s.drop_last() =~= encoding(v / 64));
        assert(s.last() == digit_symbol((v % 64) as int));
        assert(decoding(s) == decoding(encoding(v / 64)) * 64 + (v % 64));
        assert((v / 64) * 64 + v % 64 == v);
    }
}

/// An encoding holds only symbols of the alphabet.
pub proof fn lemma_encoding_in_alphabet(v: nat)
    ensures
        forall|i: int| 0 <= i < encoding(v).len() ==> in_alphabet(#[trigger] encoding(v)[i]),
    decreases v,
{
    if v < 64 {
        lemma_symbol_value_inverts(v as int);
    } else {
        lemma_encoding_in_alphabet(v / 64);
        lemma_symbol_value_inverts((v % 64) as int);
        let s = encoding(v);
        assert forall|i: int| 0 <= i < s.len() implies in_alphabet(#[trigger] s[i]) by {
            if i < s.len() - 1 {
                assert(s[i] == encoding(v / 64)[i]);
            }
        }
    }
}

/// The first symbol of the encoding of a positive number is not the zero
/// symbol.
pub proof fn lemma_no_leading_zero(v: nat)
    requires
        v > 0,
    ensures
        encoding(v)[0] != digit_symbol(0),
    decreases v,
{
    if v >= 64 {
        lemma_no_leading_zero(v / 64);
        lemma_encoding_nonempty(v / 64);
    }
}

/// A larger number never has a shorter encoding.
pub proof fn lemma_encoding_len_monotonic(a: nat, b: nat)
    requires
        a <= b,
    ensures
        encoding(a).len() <= encoding(b).len(),
    decreases b,
{
    lemma_encoding_nonempty(b);
    if a >= 64 {
        lemma_encoding_len_monotonic(a / 64, b / 64);
    }
}

} // verus!
