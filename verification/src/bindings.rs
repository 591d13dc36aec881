//! What this library takes on trust from the code it builds on: `hex` for
//! byte strings, `num_bigint` for integers of any size, `codegen` for the
//! text of a struct, and one method of `String`. Nothing here is proved;
//! everything else in the library is proved from it.

use crate::chars::all_dec;
use crate::numerals::{be_digits, bit_length, hex_decoding, radix_value};
use vstd::prelude::*;

verus! {

/// `num_bigint::BigUint`, an unsigned integer of any size. Nothing of its
/// inside is known here but the number it holds, `magnitude`.
#[verifier::external_type_specification]
#[verifier::external_body]
pub struct ExBigUint(num_bigint::BigUint);

/// `num_bigint::ParseBigIntError`, why `BigUint::from_str` refused a string.
#[verifier::external_type_specification]
#[verifier::external_body]
pub struct ExParseBigIntError(num_bigint::ParseBigIntError);

/// `hex::FromHexError`, why `hex::decode` refused a string.
#[verifier::external_type_specification]
#[verifier::external_body]
pub struct ExFromHexError(hex::FromHexError);

/// `String::push` appends one character to the string.
pub assume_specification[ std::string::String::push ](s: &mut std::string::String, c: char)
    ensures
        final(s)@ == old(s)@.push(c),
;

/// The natural number that a `BigUint` holds.
pub uninterp spec fn magnitude(n: num_bigint::BigUint) -> nat;

/// The bytes that `BigUint::to_bytes_be` gives for `n`: one zero byte for
/// zero, else the bytes of `n` without leading zeros.
pub open spec fn biguint_bytes(n: nat) -> Seq<u8> {
    if n == 0 {
        seq![0u8]
    } else {
        be_digits(n)
    }
}

/// `BigUint::from_str` reads a decimal number. This states it only of
/// strings made of the digits `0` to `9`: of those it refuses the empty
/// string alone, and the number it gives is the one that the digits write.
pub assume_specification[ <num_bigint::BigUint as std::str::FromStr>::from_str ](s: &str) -> (r:
    Result<num_bigint::BigUint, num_bigint::ParseBigIntError>)
    requires
        all_dec(s@, 0),
    ensures
        r is Ok <==> s@.len() > 0,
        r is Ok ==> magnitude(r->Ok_0) == radix_value(s@, 10),
;

/// `BigUint::bits` gives the fewest bits that can express the number.
pub assume_specification[ num_bigint::BigUint::bits ](n: &num_bigint::BigUint) -> (bits: u64)
    ensures
        bits == bit_length(magnitude(*n)),
;

/// `BigUint::to_bytes_be` gives the number in base 256, the most
/// significant byte first and without leading zeros; zero is one zero byte.
pub assume_specification[ num_bigint::BigUint::to_bytes_be ](n: &num_bigint::BigUint) -> (bytes:
    Vec<u8>)
    ensures
        bytes@ == biguint_bytes(magnitude(*n)),
;

/// `hex::decode` succeeds on an even number of hexadecimal digits, of
/// either case, and on nothing else; each pair of digits gives one byte,
/// the first digit its high half.
#[verifier::external_body]
pub(crate) fn hex_decode(s: &str) -> (r: Result<Vec<u8>, hex::FromHexError>)
    ensures
        r is Ok <==> hex_decoding(s@) is Some,
        r is Ok ==> hex_decoding(s@) == Some(r->Ok_0@),
{
    hex::decode(s)
}

/// The source text that `codegen` writes for a scope that holds one struct
/// with the given name, visibility, derives and named fields, each field a
/// name and a type.
pub uninterp spec fn struct_source(
    name: Seq<char>,
    vis: Seq<char>,
    derives: Seq<Seq<char>>,
    fields: Seq<(Seq<char>, Seq<char>)>,
) -> Seq<char>;

/// Builds a `codegen::Scope` that holds one struct, made with `new_struct`,
/// `vis`, `derive` and `field`, and renders it with `Scope::to_string`. The
/// text depends on the four arguments alone.
#[verifier::external_body]
pub(crate) fn render_struct(
    name: &str,
    vis: &str,
    derives: &Vec<&str>,
    fields: &Vec<(String, String)>,
) -> (text: String)
    ensures
        text@ == struct_source(name@, vis@, derives.deep_view(), fields.deep_view()),
{
    let mut scope = codegen::Scope::new();
    let item = scope.new_struct(name);
    item.vis(vis);
    for derive in derives.iter() {
        item.derive(derive);
    }
    for field in fields.iter() {
        item.field(&field.0, &field.1);
    }
    scope.to_string()
}

} // verus!
