//! Numbers as digit strings: the value of a literal, its bit length and
//! its big-endian bytes.

use crate::chars::{
    all_bin, all_dec, all_hex, digit, digit_value, is_bin_digit, is_dec_digit, is_hex_digit,
};
use vstd::prelude::*;

verus! {

/// The number that the digits of `s` write in the given radix, the most
/// significant digit first. The empty string writes zero.
pub open spec fn radix_value(s: Seq<char>, radix: nat) -> nat
    decreases s.len(),
{
    if s.len() == 0 {
        0
    } else {
        radix_value(s.drop_last(), radix) * radix + digit_value(s.last())
    }
}

/// The fewest bits that can express `n`: zero for zero.
pub open spec fn bit_length(n: nat) -> nat
    decreases n,
{
    if n == 0 {
        0
    } else {
        1 + bit_length(n / 2)
    }
}

/// The bytes of `n` in base 256, the most significant first, without
/// leading zeros. Zero has no bytes.
pub open spec fn be_digits(n: nat) -> Seq<u8>
    decreases n,
{
    if n == 0 {
        Seq::empty()
    } else {
        be_digits(n / 256).push((n % 256) as u8)
    }
}

/// The number that the digits `d` write in the given radix, the most
/// significant digit first.
pub open spec fn digits_value(d: Seq<u8>, radix: nat) -> nat
    decreases d.len(),
{
    if d.len() == 0 {
        0
    } else {
        digits_value(d.drop_last(), radix) * radix + d.last() as nat
    }
}

/// Every digit of `d` is below `radix`.
pub open spec fn digits_below(d: Seq<u8>, radix: nat) -> bool {
    forall|i: int| 0 <= i < d.len() ==> (#[trigger] d[i]) < radix
}

/// The bytes that an integer of `bits` bits takes.
pub open spec fn byte_width(bits: nat) -> nat {
    (bits + 7) / 8
}

/// `bytes` with zero bytes in front up to `width` bytes; `bytes` itself
/// where it is that long already.
pub open spec fn padded(bytes: Seq<u8>, width: nat) -> Seq<u8> {
    if bytes.len() >= width {
        bytes
    } else {
        Seq::new((width - bytes.len()) as nat, |i: int| 0u8) + bytes
    }
}

/// The byte that two hexadecimal digits write.
pub open spec fn hex_byte(hi: char, lo: char) -> u8 {
    (16 * digit_value(hi) + digit_value(lo)) as u8
}

/// The bytes that `s` writes as pairs of hexadecimal digits, where `s` is
/// an even number of such digits.
pub open spec fn hex_decoding(s: Seq<char>) -> Option<Seq<u8>> {
    if s.len() % 2 == 0 && all_hex(s, 0) {
        Some(Seq::new((s.len() / 2) as nat, |i: int| hex_byte(s[2 * i], s[2 * i + 1])))
    } else {
        None
    }
}

/// The character that writes the digit `d`, in lower case from ten on.
pub open spec fn digit_char(d: nat) -> char {
    if d < 10 {
        (0x30 + d) as char
    } else {
        (0x61 + d - 10) as char
    }
}

/// `n` in decimal digits, without leading zeros.
pub open spec fn decimal_text(n: nat) -> Seq<char>
    decreases n,
{
    if n < 10 {
        seq![digit_char(n)]
    } else {
        decimal_text(n / 10).push(digit_char(n % 10))
    }
}

/// A larger number needs no fewer bits.
pub proof fn lemma_bit_length_monotonic(a: nat, b: nat)
    requires
        a <= b,
    ensures
        bit_length(a) <= bit_length(b),
    decreases b,
{
    if a > 0 {
        lemma_bit_length_monotonic(a / 2, b / 2);
    }
}

/// Four more binary digits make a number at most four bits longer.
pub proof fn lemma_bit_length_nibble(n: nat, d: nat)
    requires
        d < 16,
    ensures
        bit_length(n * 16 + d) <= bit_length(n) + 4,
{
    let a = n * 16 + d;
    assert(a / 2 / 2 / 2 / 2 == n);
    reveal_with_fuel(bit_length, 5);
}

/// One more binary digit makes a number at most one bit longer.
pub proof fn lemma_bit_length_bit(n: nat, d: nat)
    requires
        d < 2,
    ensures
        bit_length(n * 2 + d) <= bit_length(n) + 1,
{
    assert((n * 2 + d) / 2 == n);
}

/// A number written in `k` digits of base sixteen needs at most `4 * k`
/// bits, and one written in `k` digits of base two at most `k`.
pub proof fn lemma_radix_bit_length(s: Seq<char>)
    ensures
        all_hex(s, 0) ==> bit_length(radix_value(s, 16)) <= 4 * s.len(),
        all_bin(s, 0) ==> bit_length(radix_value(s, 2)) <= s.len(),
    decreases s.len(),
{
    if s.len() > 0 {
        let head = s.drop_last();
        lemma_radix_bit_length(head);
        let d = digit_value(s.last());
        if all_hex(s, 0) {
            assert(is_hex_digit(s.last()));
            assert(all_hex(head, 0)) by {
                assert forall|i: int| 0 <= i < head.len() implies is_hex_digit(
                    #[trigger] head[i],
                ) by {
                    assert(head[i] == s[i]);
                }
            }
            lemma_bit_length_nibble(radix_value(head, 16), d);
        }
        if all_bin(s, 0) {
            assert(is_bin_digit(s.last()));
            assert(all_bin(head, 0)) by {
                assert forall|i: int| 0 <= i < head.len() implies is_bin_digit(
                    #[trigger] head[i],
                ) by {
                    assert(head[i] == s[i]);
                }
            }
            lemma_bit_length_bit(radix_value(head, 2), d);
        }
    }
}

/// A number has as many bytes as its bits take.
pub proof fn lemma_be_digits_len(n: nat)
    ensures
        be_digits(n).len() == byte_width(bit_length(n)),
    decreases n,
{
    if n > 0 {
        lemma_be_digits_len(n / 256);
        if n >= 256 {
            assert(n / 2 / 2 / 2 / 2 / 2 / 2 / 2 / 2 == n / 256);
            assert(n / 2 / 2 / 2 / 2 / 2 / 2 / 2 >= 1);
            reveal_with_fuel(bit_length, 9);
            assert(bit_length(n) == 8 + bit_length(n / 256));
        } else {
            assert(n / 256 == 0);
            assert(be_digits(n / 256).len() == 0);
            lemma_bit_length_monotonic(n, 255);
            assert(bit_length(255) == 8) by {
                reveal_with_fuel(bit_length, 10);
            }
            assert(1 <= bit_length(n) <= 8);
        }
    }
}

/// A number of at most `bits` bits, padded to the bytes that `bits` bits
/// take, has exactly that many bytes and is worth what it was.
pub proof fn lemma_padded_width(n: nat, bits: nat)
    requires
        bit_length(n) <= bits,
    ensures
        padded(be_digits(n), byte_width(bits)).len() == byte_width(bits),
        digits_value(padded(be_digits(n), byte_width(bits)), 256) == n,
{
    lemma_be_digits_len(n);
    lemma_be_digits_value(n);
    let bytes = be_digits(n);
    let out = padded(bytes, byte_width(bits));
    let zeros = out.len() - bytes.len();
    assert(out.skip(zeros) =~= bytes);
    lemma_leading_zeros(out, zeros);
}

/// A decimal number of `k` digits needs at most `4 * k` bits.
pub proof fn lemma_decimal_bit_length(s: Seq<char>)
    requires
        all_dec(s, 0),
    ensures
        bit_length(radix_value(s, 10)) <= 4 * s.len(),
    decreases s.len(),
{
    if s.len() > 0 {
        let head = s.drop_last();
        lemma_decimal_bit_length(head);
        let n = radix_value(head, 10);
        let d = digit_value(s.last());
        assert(is_dec_digit(s.last()));
        assert(d < 10);
        assert(n * 10 + d <= n * 16 + d) by (nonlinear_arith)
            requires
                n >= 0,
        ;
        lemma_bit_length_monotonic(n * 10 + d, n * 16 + d);
        lemma_bit_length_nibble(n, d);
    }
}

/// The digits of a string are worth what the string writes.
pub proof fn lemma_digits_value(s: Seq<char>, d: Seq<u8>, radix: nat)
    requires
        d.len() == s.len(),
        forall|i: int| 0 <= i < s.len() ==> (#[trigger] d[i]) == digit_value(s[i]),
    ensures
        digits_value(d, radix) == radix_value(s, radix),
    decreases s.len(),
{
    if s.len() > 0 {
        lemma_digits_value(s.drop_last(), d.drop_last(), radix);
    }
}

/// The bytes of a number are worth the number.
pub proof fn lemma_be_digits_value(n: nat)
    ensures
        digits_value(be_digits(n), 256) == n,
        digits_below(be_digits(n), 256),
    decreases n,
{
    if n > 0 {
        lemma_be_digits_value(n / 256);
        assert(be_digits(n).drop_last() =~= be_digits(n / 256));
    }
}

/// Bytes that do not begin with zero are the bytes of their value.
pub proof fn lemma_be_digits_minimal(b: Seq<u8>)
    requires
        b.len() == 0 || b[0] != 0,
    ensures
        be_digits(digits_value(b, 256)) == b,
        b.len() > 0 ==> digits_value(b, 256) > 0,
    decreases b.len(),
{
    if b.len() > 0 {
        let head = b.drop_last();
        let n = digits_value(b, 256);
        if head.len() > 0 {
            assert(head[0] == b[0]);
        }
        lemma_be_digits_minimal(head);
        assert(n == digits_value(head, 256) * 256 + b.last() as nat);
        assert(n / 256 == digits_value(head, 256));
        assert(n % 256 == b.last() as nat);
        if head.len() == 0 {
            assert(b.last() == b[0]);
        }
        assert(n > 0);
        assert(be_digits(n) =~= b);
    }
}

/// Zero bytes in front add nothing to the value.
pub proof fn lemma_leading_zeros(b: Seq<u8>, zeros: int)
    requires
        0 <= zeros <= b.len(),
        forall|i: int| 0 <= i < zeros ==> b[i] == 0,
    ensures
        digits_value(b.skip(zeros), 256) == digits_value(b, 256),
    decreases b.len(),
{
    if zeros < b.len() {
        lemma_leading_zeros(b.drop_last(), zeros);
        assert(b.skip(zeros).drop_last() =~= b.drop_last().skip(zeros));
    } else {
        lemma_zeros_value(b);
        assert(b.skip(zeros) =~= Seq::<u8>::empty());
    }
}

/// Zero bytes alone are worth zero.
pub proof fn lemma_zeros_value(b: Seq<u8>)
    requires
        forall|i: int| 0 <= i < b.len() ==> b[i] == 0,
    ensures
        digits_value(b, 256) == 0,
    decreases b.len(),
{
    if b.len() > 0 {
        lemma_zeros_value(b.drop_last());
    }
}

/// The character that writes the digit `d`.
pub fn char_of_digit(d: u8) -> (c: char)
    requires
        d < 16,
    ensures
        c == digit_char(d as nat),
{
    if d < 10 {
        (0x30 + d) as char
    } else {
        (0x61 + d - 10) as char
    }
}

/// `n` in decimal digits.
pub fn decimal_string(n: usize) -> (s: String)
    ensures
        s@ == decimal_text(n as nat),
    decreases n,
{
    if n < 10 {
        let mut s = String::new();
        s.push(char_of_digit(n as u8));
        s
    } else {
        let mut s = decimal_string(n / 10);
        s.push(char_of_digit((n % 10) as u8));
        s
    }
}

/// The values of the digits `v[from..]`.
pub fn digits_of(v: &Vec<char>, from: usize) -> (d: Vec<u8>)
    requires
        from <= v.len(),
    ensures
        d.len() == v.len() - from,
        forall|i: int| 0 <= i < d.len() ==> (#[trigger] d@[i]) == digit_value(v@[from + i]),
        digits_below(d@, 16),
{
    let mut d: Vec<u8> = Vec::new();
    let mut i: usize = from;
    while i < v.len()
        invariant
            from <= i <= v.len(),
            d.len() == i - from,
            forall|j: int| 0 <= j < d.len() ==> (#[trigger] d@[j]) == digit_value(v@[from + j]),
            digits_below(d@, 16),
        decreases v.len() - i,
    {
        d.push(digit(v[i]));
        i += 1;
    }
    d
}

/// Joins the digits of `d` two by two into digits of the squared radix. An
/// odd first digit stands alone, so that the value stays what it was.
pub fn pack(d: &Vec<u8>, radix: u8) -> (out: Vec<u8>)
    requires
        1 <= radix <= 16,
        digits_below(d@, radix as nat),
    ensures
        digits_value(out@, (radix * radix) as nat) == digits_value(d@, radix as nat),
        digits_below(out@, (radix * radix) as nat),
{
    let mut out: Vec<u8> = Vec::new();
    let mut i: usize = 0;
    let ghost none = Seq::<u8>::empty();
    proof {
        assert(digits_value(none, radix as nat) == 0);
        assert(digits_value(none, (radix * radix) as nat) == 0);
        assert(d@.take(0) =~= none);
    }
    if d.len() % 2 == 1 {
        out.push(d[0]);
        i = 1;
        proof {
            assert(d@.take(1).drop_last() =~= none);
            assert(out@.drop_last() =~= none);
            assert(d@.take(1).last() == d@[0]);
            assert(d@[0] < radix * radix) by (nonlinear_arith)
                requires
                    d@[0] < radix,
                    radix >= 1,
            ;
            assert(digits_value(d@.take(1), radix as nat) == 0 * radix + d@[0]);
            assert(digits_value(out@, (radix * radix) as nat) == 0 * (radix * radix) + d@[0]);
        }
    } else {
        proof {
            assert(out@ =~= none);
        }
    }
    while i < d.len()
        invariant
            i <= d.len(),
            (d.len() - i) % 2 == 0,
            1 <= radix <= 16,
            digits_below(d@, radix as nat),
            digits_below(out@, (radix * radix) as nat),
            digits_value(out@, (radix * radix) as nat) == digits_value(
                d@.take(i as int),
                radix as nat,
            ),
        decreases d.len() - i,
    {
        let hi = d[i];
        let lo = d[i + 1];
        let ghost before = out@;
        let ghost value = digits_value(d@.take(i as int), radix as nat);
        proof {
            assert(hi * radix + lo < radix * radix && radix * radix <= 256) by (nonlinear_arith)
                requires
                    hi < radix,
                    lo < radix,
                    1 <= radix <= 16,
            ;
        }
        out.push(hi * radix + lo);
        proof {
            assert(out@.drop_last() =~= before);
            assert(d@.take(i + 2).drop_last() =~= d@.take(i + 1));
            assert(d@.take(i + 1).drop_last() =~= d@.take(i as int));
            assert(digits_value(d@.take(i + 1), radix as nat) == value * radix + hi);
            assert(digits_value(d@.take(i + 2), radix as nat) == (value * radix + hi) * radix
                + lo);
            assert(digits_value(out@, (radix * radix) as nat) == value * (radix * radix) + (hi
                * radix + lo));
            assert((value * radix + hi) * radix + lo == value * (radix * radix) + (hi * radix
                + lo)) by (nonlinear_arith);
        }
        i += 2;
    }
    proof {
        assert(d@.take(d.len() as int) =~= d@);
    }
    out
}

/// `b` without its leading zero bytes: the bytes of the number that `b`
/// writes.
pub fn minimal(b: &Vec<u8>) -> (out: Vec<u8>)
    ensures
        out@ == be_digits(digits_value(b@, 256)),
{
    let mut zeros: usize = 0;
    while zeros < b.len() && b[zeros] == 0
        invariant
            zeros <= b.len(),
            forall|i: int| 0 <= i < zeros ==> b@[i] == 0,
        decreases b.len() - zeros,
    {
        zeros += 1;
    }
    let mut out: Vec<u8> = Vec::new();
    let mut i: usize = zeros;
    while i < b.len()
        invariant
            zeros <= i <= b.len(),
            out@ == b@.subrange(zeros as int, i as int),
        decreases b.len() - i,
    {
        out.push(b[i]);
        i += 1;
        assert(b@.subrange(zeros as int, i as int) =~= b@.subrange(zeros as int, i - 1).push(
            b@[i - 1],
        ));
    }
    proof {
        assert(out@ =~= b@.skip(zeros as int));
        lemma_leading_zeros(b@, zeros as int);
        lemma_be_digits_minimal(out@);
    }
    out
}

/// `bytes` with zero bytes in front up to `width` bytes.
pub fn pad_left(bytes: &Vec<u8>, width: usize) -> (out: Vec<u8>)
    ensures
        out@ == padded(bytes@, width as nat),
{
    let mut out: Vec<u8> = Vec::new();
    let mut i: usize = bytes.len();
    while i < width
        invariant
            bytes.len() <= i,
            bytes.len() < width ==> i <= width,
            bytes.len() >= width ==> i == bytes.len(),
            out.len() == i - bytes.len(),
            forall|j: int| 0 <= j < out.len() ==> out@[j] == 0,
        decreases width - i,
    {
        out.push(0);
        i += 1;
    }
    let ghost zeros = out@;
    let mut k: usize = 0;
    while k < bytes.len()
        invariant
            k <= bytes.len(),
            out@ == zeros + bytes@.take(k as int),
        decreases bytes.len() - k,
    {
        out.push(bytes[k]);
        k += 1;
        assert(zeros + bytes@.take(k as int) =~= (zeros + bytes@.take(k - 1)).push(bytes@[k - 1]));
    }
    proof {
        assert(bytes@.take(bytes.len() as int) =~= bytes@);
        if bytes.len() >= width {
            assert(zeros =~= Seq::<u8>::empty());
            assert(zeros + bytes@ =~= bytes@);
        } else {
            assert(zeros =~= Seq::new((width - bytes.len()) as nat, |i: int| 0u8));
        }
    }
    out
}

} // verus!
