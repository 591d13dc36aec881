//! Raw literals and their classification.

use crate::bindings::{hex_decode, magnitude};
use crate::chars::{
    all_bin, all_bin_from, all_dec, all_dec_from, all_hex, all_hex_from, is_bin_digit, to_chars,
};
use crate::kinds::T;
use crate::numerals::{
    be_digits, bit_length, byte_width, digits_of, digits_value, hex_decoding,
    lemma_be_digits_value, lemma_decimal_bit_length, lemma_digits_value, lemma_padded_width,
    lemma_radix_bit_length, minimal, pack, padded, radix_value,
};
use vstd::prelude::*;

verus! {

/// A raw literal and, where the literal is an even number of hexadecimal
/// digits, the bytes that it writes.
#[derive(Clone, Debug, PartialEq, Eq)]
pub struct Value {
    pub orig: String,
    pub hex_parsed: Option<Vec<u8>>,
}

/// What a `Value` holds.
pub struct ValueView {
    pub orig: Seq<char>,
    pub hex_parsed: Option<Seq<u8>>,
}

impl View for Value {
    type V = ValueView;

    open spec fn view(&self) -> ValueView {
        ValueView {
            orig: self.orig@,
            hex_parsed: match self.hex_parsed {
                Some(bytes) => Some(bytes@),
                None => None,
            },
        }
    }
}

impl DeepView for Value {
    type V = ValueView;

    open spec fn deep_view(&self) -> ValueView {
        self@
    }
}

/// Whether `s` begins with the two characters `a` and `b`.
pub open spec fn has_prefix(s: Seq<char>, a: char, b: char) -> bool {
    s.len() >= 2 && s[0] == a && s[1] == b
}

/// The bit width of an integer literal, and nothing for any other literal.
///
/// After `0x` every hexadecimal digit counts four bits. After `0b` the width
/// is the length of the whole literal, the prefix included, and so two more
/// than the number of binary digits. A literal of decimal digits has the bit
/// length of its value; the empty literal is no integer.
pub open spec fn integral_width(s: Seq<char>) -> Option<nat> {
    if has_prefix(s, '0', 'x') {
        if all_hex(s, 2) {
            Some((4 * (s.len() - 2)) as nat)
        } else {
            None
        }
    } else if has_prefix(s, '0', 'b') {
        if all_bin(s, 2) {
            Some(s.len())
        } else {
            None
        }
    } else if s.len() > 0 && all_dec(s, 0) {
        Some(bit_length(radix_value(s, 10)))
    } else {
        None
    }
}

/// The number that an integer literal writes: in base sixteen after `0x`,
/// in base two after `0b`, else in base ten. A prefix alone writes zero.
pub open spec fn literal_value(s: Seq<char>) -> Option<nat> {
    if has_prefix(s, '0', 'x') {
        if all_hex(s, 2) {
            Some(radix_value(s.skip(2), 16))
        } else {
            None
        }
    } else if has_prefix(s, '0', 'b') {
        if all_bin(s, 2) {
            Some(radix_value(s.skip(2), 2))
        } else {
            None
        }
    } else if s.len() > 0 && all_dec(s, 0) {
        Some(radix_value(s, 10))
    } else {
        None
    }
}

/// The value read from the literal `s`.
pub open spec fn value_of(s: Seq<char>) -> ValueView {
    ValueView { orig: s, hex_parsed: hex_decoding(s) }
}

/// The semantic type of a value: an integer where the literal is one, else
/// bytes where it was decoded, else text.
pub open spec fn classify(v: ValueView) -> T {
    match integral_width(v.orig) {
        Some(w) => T::Integer(w as usize),
        None => match v.hex_parsed {
            Some(bytes) => T::Bytes(bytes.len() as usize),
            None => T::String,
        },
    }
}

/// An integer literal has a value, and the value needs no more bits than
/// the width of the literal. So under a schema type at least that wide the
/// literal is written in exactly the bytes of the schema type.
pub proof fn lemma_literal_width(s: Seq<char>, bits: nat)
    requires
        integral_width(s) matches Some(w) && w <= bits,
    ensures
        literal_value(s) matches Some(n) && bit_length(n) <= integral_width(s)->0 && padded(
            be_digits(n),
            byte_width(bits),
        ).len() == byte_width(bits) && digits_value(padded(be_digits(n), byte_width(bits)), 256)
            == n,
{
    let n = literal_value(s)->0;
    if has_prefix(s, '0', 'x') || has_prefix(s, '0', 'b') {
        let digits = s.skip(2);
        assert forall|i: int| 0 <= i < digits.len() implies digits[i] == s[i + 2] by {}
        lemma_radix_bit_length(digits);
    }
    lemma_padded_width(n, bits);
}

/// A literal is an integer exactly if it has a value.
pub proof fn lemma_literal_value(s: Seq<char>)
    ensures
        literal_value(s) is Some <==> integral_width(s) is Some,
{
}

impl Value {
    /// The literal is short enough for its bit width to be a `usize`.
    pub open spec fn fits(&self) -> bool {
        4 * self.orig@.len() <= usize::MAX
    }

    /// Whether the literal is short enough for its bit width to be a
    /// `usize`.
    pub fn literal_fits(&self) -> (b: bool)
        ensures
            b == self.fits(),
    {
        self.orig.as_str().unicode_len() <= usize::MAX / 4
    }

    /// Reads a literal.
    pub fn from_str(s: &str) -> (v: Value)
        ensures
            v@ == value_of(s@),
    {
        let hex_parsed = match hex_decode(s) {
            Err(_) => None,
            Ok(bytes) => Some(bytes),
        };
        Value { orig: s.to_string(), hex_parsed }
    }

    /// The bit width of the literal where it is an integer.
    pub fn is_integral(&self) -> (r: Option<usize>)
        requires
            self.fits(),
        ensures
            r is Some <==> integral_width(self.orig@) is Some,
            r is Some ==> r->0 == integral_width(self.orig@)->0,
    {
        let v = to_chars(self.orig.as_str());
        let n = v.len();
        if n >= 2 && v[0] == '0' && v[1] == 'x' {
            if all_hex_from(&v, 2) {
                Some((n - 2) * 4)
            } else {
                None
            }
        } else if n >= 2 && v[0] == '0' && v[1] == 'b' {
            if all_bin_from(&v, 2) {
                Some(n)
            } else {
                None
            }
        } else if all_dec_from(&v, 0) {
            match <num_bigint::BigUint as std::str::FromStr>::from_str(self.orig.as_str()) {
                Ok(number) => {
                    proof {
                        lemma_decimal_bit_length(self.orig@);
                    }
                    Some(number.bits() as usize)
                },
                Err(_) => None,
            }
        } else {
            None
        }
    }

    /// The bytes of the number that an integer literal writes, the most
    /// significant first and without leading zeros; nothing for a literal
    /// that is no integer.
    pub fn integer_bytes(&self) -> (r: Option<Vec<u8>>)
        ensures
            match literal_value(self.orig@) {
                Some(n) => r is Some && r->0@ == be_digits(n),
                None => r is None,
            },
    {
        let v = to_chars(self.orig.as_str());
        let n = v.len();
        if n >= 2 && v[0] == '0' && v[1] == 'x' {
            if all_hex_from(&v, 2) {
                let digits = digits_of(&v, 2);
                proof {
                    lemma_digits_value(v@.skip(2), digits@, 16);
                }
                Some(minimal(&pack(&digits, 16)))
            } else {
                None
            }
        } else if n >= 2 && v[0] == '0' && v[1] == 'b' {
            if all_bin_from(&v, 2) {
                let digits = digits_of(&v, 2);
                proof {
                    lemma_digits_value(v@.skip(2), digits@, 2);
                    assert forall|i: int| 0 <= i < digits.len() implies (#[trigger] digits@[i])
                        < 2 by {
                        assert(is_bin_digit(v@[2 + i]));
                    }
                }
                Some(minimal(&pack(&pack(&pack(&digits, 2), 4), 16)))
            } else {
                None
            }
        } else if all_dec_from(&v, 0) {
            match <num_bigint::BigUint as std::str::FromStr>::from_str(self.orig.as_str()) {
                Ok(number) => {
                    let bytes = number.to_bytes_be();
                    proof {
                        lemma_be_digits_value(magnitude(number));
                        assert(digits_value(seq![0u8], 256) == 0) by {
                            assert(seq![0u8].drop_last() =~= Seq::<u8>::empty());
                            assert(digits_value(Seq::<u8>::empty(), 256) == 0);
                        }
                    }
                    Some(minimal(&bytes))
                },
                Err(_) => None,
            }
        } else {
            None
        }
    }

    /// The semantic type of the value.
    pub fn find_type(&self) -> (t: T)
        requires
            self.fits(),
        ensures
            t == classify(self@),
    {
        match self.is_integral() {
            None => {
                if let Some(bytes) = &self.hex_parsed {
                    T::Bytes(bytes.len())
                } else {
                    T::String
                }
            },
            Some(bits) => T::Integer(bits),
        }
    }
}

} // verus!
