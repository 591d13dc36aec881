//! The Rust backend: a struct for the schema and one literal per record.

use crate::analysis::{Kat, KatView};
use crate::bindings::{render_struct, struct_source};
use crate::fields::{find_key, key_index};
use crate::kinds::T;
use crate::numerals::{
    be_digits, byte_width, char_of_digit, decimal_string, decimal_text, digit_char, pad_left,
    padded,
};
use crate::segment::{ContentItem, ItemView};
use crate::value::{literal_value, Value, ValueView};
use vstd::prelude::*;

verus! {

/// The Rust type that a field is declared with.
#[derive(Clone, Copy, Debug, PartialEq, Eq, Structural)]
pub enum RustTy {
    U8,
    U16,
    U32,
    U64,
    U128,
    Bytes,
    String,
}

/// How a Rust type is written.
pub open spec fn written(ty: RustTy) -> Seq<char> {
    match ty {
        RustTy::U8 => "u8"@,
        RustTy::U16 => "u16"@,
        RustTy::U32 => "u32"@,
        RustTy::U64 => "u64"@,
        RustTy::U128 => "u128"@,
        RustTy::String => "String"@,
        RustTy::Bytes => "&'static [u8]"@,
    }
}

/// The smallest unsigned integer type that holds the bit width, and a byte
/// slice for anything wider, for byte strings too.
pub open spec fn rust_type(t: T) -> RustTy {
    match t {
        T::Integer(bits) => if bits <= 8 {
            RustTy::U8
        } else if bits <= 16 {
            RustTy::U16
        } else if bits <= 32 {
            RustTy::U32
        } else if bits <= 64 {
            RustTy::U64
        } else if bits <= 128 {
            RustTy::U128
        } else {
            RustTy::Bytes
        },
        T::String => RustTy::String,
        T::Bytes(_) => RustTy::Bytes,
    }
}

impl RustTy {
    /// How the type is written.
    pub fn as_string(&self) -> (s: String)
        ensures
            s@ == written(*self),
    {
        match self {
            RustTy::U8 => "u8".to_string(),
            RustTy::U16 => "u16".to_string(),
            RustTy::U32 => "u32".to_string(),
            RustTy::U64 => "u64".to_string(),
            RustTy::U128 => "u128".to_string(),
            RustTy::String => "String".to_string(),
            RustTy::Bytes => "&'static [u8]".to_string(),
        }
    }
}

impl From<T> for RustTy {
    fn from(t: T) -> (ty: RustTy) {
        match t {
            T::Integer(b) => {
                if b <= 8 {
                    RustTy::U8
                } else if b <= 16 {
                    RustTy::U16
                } else if b <= 32 {
                    RustTy::U32
                } else if b <= 64 {
                    RustTy::U64
                } else if b <= 128 {
                    RustTy::U128
                } else {
                    RustTy::Bytes
                }
            },
            T::String => RustTy::String,
            T::Bytes(_) => RustTy::Bytes,
        }
    }
}

impl vstd::std_specs::convert::FromSpecImpl<T> for RustTy {
    open spec fn obeys_from_spec() -> bool {
        true
    }

    open spec fn from_spec(t: T) -> RustTy {
        rust_type(t)
    }
}

/// One byte as `0x` and two hexadecimal digits in lower case.
pub open spec fn byte_text(b: u8) -> Seq<char> {
    seq!['0', 'x', digit_char((b / 16) as nat), digit_char((b % 16) as nat)]
}

/// The bytes of `bytes`, separated by a comma and a space.
pub open spec fn bytes_text(bytes: Seq<u8>) -> Seq<char>
    decreases bytes.len(),
{
    if bytes.len() == 0 {
        Seq::empty()
    } else if bytes.len() == 1 {
        byte_text(bytes[0])
    } else {
        bytes_text(bytes.drop_last()) + seq![',', ' '] + byte_text(bytes.last())
    }
}

/// A borrowed array literal of the given bytes.
pub open spec fn array_text(bytes: Seq<u8>) -> Seq<char> {
    seq!['&', '['] + bytes_text(bytes) + seq![']']
}

/// Writes bytes as a borrowed array literal: `&[0x00, 0x2c]`.
pub fn bytes_to_array(bs: &Vec<u8>) -> (s: String)
    ensures
        s@ == array_text(bs@),
{
    let mut s = String::new();
    s.push('&');
    s.push('[');
    let mut i: usize = 0;
    while i < bs.len()
        invariant
            i <= bs.len(),
            s@ == seq!['&', '['] + bytes_text(bs@.take(i as int)),
        decreases bs.len() - i,
    {
        let ghost before = s@;
        if i != 0 {
            s.push(',');
            s.push(' ');
        }
        let b = bs[i];
        s.push('0');
        s.push('x');
        s.push(char_of_digit(b / 16));
        s.push(char_of_digit(b % 16));
        proof {
            let head = bs@.take(i as int);
            let next = bs@.take(i + 1);
            assert(next.drop_last() =~= head);
            assert(next.last() == b);
            if i == 0 {
                assert(bytes_text(head) =~= Seq::<char>::empty());
                assert(s@ =~= seq!['&', '['] + byte_text(b));
            } else {
                assert(s@ =~= before + seq![',', ' '] + byte_text(b));
                assert(s@ =~= seq!['&', '['] + (bytes_text(head) + seq![',', ' '] + byte_text(b)));
            }
        }
        i += 1;
    }
    proof {
        assert(bs@.take(bs.len() as int) =~= bs@);
    }
    s.push(']');
    s
}

/// A value as it was read: its bytes where it was decoded, else the
/// literal in double quotes.
pub open spec fn raw_text(v: ValueView) -> Seq<char> {
    match v.hex_parsed {
        None => seq!['"'] + v.orig + seq!['"'],
        Some(bytes) => array_text(bytes),
    }
}

/// A value under the type that the schema has for its field. Under an
/// integer type an integer literal is written as the bytes of its number,
/// the most significant first, with zero bytes in front up to the width of
/// the type. Anything else is written as it was read.
pub open spec fn value_text(t: T, v: ValueView) -> Seq<char> {
    match t {
        T::Integer(bits) => match literal_value(v.orig) {
            Some(n) => array_text(padded(be_digits(n), byte_width(bits as nat))),
            None => raw_text(v),
        },
        _ => raw_text(v),
    }
}

/// One field of a record literal, on a line of its own.
pub open spec fn field_line(name: Seq<char>, text: Seq<char>) -> Seq<char> {
    "    "@ + name + ": "@ + text + ",\n"@
}

/// The fields of a record literal for the first `n` fields of the schema,
/// in the order of the schema. A field that the record lacks is left out.
pub open spec fn typed_fields_text(
    schema: Seq<(Seq<char>, T)>,
    fields: Seq<(Seq<char>, ValueView)>,
    n: nat,
) -> Seq<char>
    decreases n,
{
    if n == 0 {
        Seq::empty()
    } else {
        let head = typed_fields_text(schema, fields, (n - 1) as nat);
        let at = key_index(fields, schema[n - 1].0);
        if at < fields.len() {
            head + field_line(schema[n - 1].0, value_text(schema[n - 1].1, fields[at].1))
        } else {
            head
        }
    }
}

/// The first `n` fields of a record where there is no schema: each name
/// assigned a placeholder.
pub open spec fn untyped_fields_text(fields: Seq<(Seq<char>, ValueView)>, n: nat) -> Seq<char>
    decreases n,
{
    if n == 0 {
        Seq::empty()
    } else {
        untyped_fields_text(fields, (n - 1) as nat) + fields[n - 1].0 + " = v;\n"@
    }
}

/// One item of the collection. Text becomes a comment. A record becomes a
/// comment with its number and a literal of the struct, or, without a
/// schema, its assignments.
pub open spec fn item_text(schema: Option<Seq<(Seq<char>, T)>>, item: ItemView, number: nat) -> Seq<
    char,
> {
    match item {
        ItemView::Text(text) => "// "@ + text + "\n"@,
        ItemView::KVS(fields) => match schema {
            Some(schema) => "// KAT "@ + decimal_text(number) + "\n"@ + "KV {\n"@
                + typed_fields_text(schema, fields, schema.len()) + "},\n"@,
            None => untyped_fields_text(fields, fields.len()),
        },
    }
}

/// The number of records among the first `n` items.
pub open spec fn record_count(items: Seq<(usize, ItemView)>, n: nat) -> nat
    decreases n,
{
    if n == 0 {
        0
    } else if items[n - 1].1 is KVS {
        record_count(items, (n - 1) as nat) + 1
    } else {
        record_count(items, (n - 1) as nat)
    }
}

/// The first `n` items of the collection, records numbered from zero.
pub open spec fn items_text(
    schema: Option<Seq<(Seq<char>, T)>>,
    items: Seq<(usize, ItemView)>,
    n: nat,
) -> Seq<char>
    decreases n,
{
    if n == 0 {
        Seq::empty()
    } else {
        items_text(schema, items, (n - 1) as nat) + item_text(
            schema,
            items[n - 1].1,
            record_count(items, (n - 1) as nat),
        )
    }
}

/// The fields of the struct: the fields of the schema, each with the name
/// of its Rust type.
pub open spec fn declared_fields(schema: Seq<(Seq<char>, T)>) -> Seq<(Seq<char>, Seq<char>)> {
    Seq::new(schema.len(), |i: int| (schema[i].0, written(rust_type(schema[i].1))))
}

/// The declaration of the struct `KV`, public and deriving `Debug` and
/// `Clone`; nothing where there is no schema.
pub open spec fn declaration_text(schema: Option<Seq<(Seq<char>, T)>>) -> Seq<char> {
    match schema {
        Some(schema) => struct_source(
            "KV"@,
            "pub"@,
            seq!["Debug"@, "Clone"@],
            declared_fields(schema),
        ),
        None => Seq::empty(),
    }
}

/// The output around a given declaration: the declaration on a line of
/// its own, then the constant `KATS`, an array of as many `KV` as there
/// are records, with the items in file order.
pub open spec fn assembled(
    declaration: Seq<char>,
    schema: Option<Seq<(Seq<char>, T)>>,
    items: Seq<(usize, ItemView)>,
) -> Seq<char> {
    declaration + "\n"@ + "pub const KATS : [KV; "@ + decimal_text(
        record_count(items, items.len()),
    ) + "] = [\n"@ + items_text(schema, items, items.len()) + "];\n"@
}

/// The whole output: the declaration of the struct for the schema, and
/// the collection under it.
pub open spec fn generated(kat: KatView) -> Seq<char> {
    assembled(declaration_text(kat.same_structure), kat.same_structure, kat.content)
}

/// Writes a value as it was read.
pub fn raw_value(v: &Value) -> (s: String)
    ensures
        s@ == raw_text(v@),
{
    match &v.hex_parsed {
        None => {
            let mut s = String::new();
            s.push('"');
            s.append(v.orig.as_str());
            s.push('"');
            s
        },
        Some(bytes) => bytes_to_array(bytes),
    }
}

/// The bytes that an integer of `bits` bits takes.
pub fn bytes_for(bits: usize) -> (n: usize)
    ensures
        n == byte_width(bits as nat),
{
    if bits % 8 == 0 {
        bits / 8
    } else {
        bits / 8 + 1
    }
}

/// Writes a value under the type that the schema has for its field.
pub fn typed_value(t: T, v: &Value) -> (s: String)
    ensures
        s@ == value_text(t, v@),
{
    match t {
        T::Integer(bits) => match v.integer_bytes() {
            Some(bytes) => bytes_to_array(&pad_left(&bytes, bytes_for(bits))),
            None => raw_value(v),
        },
        _ => raw_value(v),
    }
}

/// Writes the fields of a record literal in the order of the schema.
pub fn typed_fields(schema: &Vec<(String, T)>, fields: &Vec<(String, Value)>) -> (s: String)
    ensures
        s@ == typed_fields_text(schema.deep_view(), fields.deep_view(), schema.len() as nat),
{
    let mut s = String::new();
    let mut i: usize = 0;
    while i < schema.len()
        invariant
            i <= schema.len(),
            s@ == typed_fields_text(schema.deep_view(), fields.deep_view(), i as nat),
        decreases schema.len() - i,
    {
        let at = find_key(fields, &schema[i].0);
        if at < fields.len() {
            let text = typed_value(schema[i].1, &fields[at].1);
            s.append("    ");
            s.append(schema[i].0.as_str());
            s.append(": ");
            s.append(text.as_str());
            s.append(",\n");
        }
        i += 1;
    }
    s
}

/// Writes the fields of a record for which there is no schema.
pub fn untyped_fields(fields: &Vec<(String, Value)>) -> (s: String)
    ensures
        s@ == untyped_fields_text(fields.deep_view(), fields.len() as nat),
{
    let mut s = String::new();
    let mut i: usize = 0;
    while i < fields.len()
        invariant
            i <= fields.len(),
            s@ == untyped_fields_text(fields.deep_view(), i as nat),
        decreases fields.len() - i,
    {
        s.append(fields[i].0.as_str());
        s.append(" = v;\n");
        i += 1;
    }
    s
}

/// The fields of the struct for a schema, each with the name of its Rust
/// type.
pub fn struct_fields(schema: &Vec<(String, T)>) -> (fields: Vec<(String, String)>)
    ensures
        fields.deep_view() == declared_fields(schema.deep_view()),
{
    let mut fields: Vec<(String, String)> = Vec::new();
    let mut i: usize = 0;
    while i < schema.len()
        invariant
            i <= schema.len(),
            fields.len() == i,
            forall|j: int|
                0 <= j < i ==> (#[trigger] fields.deep_view()[j]) == declared_fields(
                    schema.deep_view(),
                )[j],
        decreases schema.len() - i,
    {
        let ghost before = fields.deep_view();
        let name = schema[i].0.clone();
        let ty = RustTy::from(schema[i].1).as_string();
        fields.push((name, ty));
        proof {
            assert(fields.deep_view() =~= before.push((name@, ty@)));
        }
        i += 1;
    }
    proof {
        assert(fields.deep_view() =~= declared_fields(schema.deep_view()));
    }
    fields
}

/// Writes the declaration of the struct for a schema.
pub fn declaration(schema: &Option<Vec<(String, T)>>) -> (s: String)
    ensures
        s@ == declaration_text(
            match *schema {
                Some(fields) => Some(fields.deep_view()),
                None => None,
            },
        ),
{
    match schema {
        Some(schema) => {
            let fields = struct_fields(schema);
            let derives: Vec<&str> = vec!["Debug", "Clone"];
            proof {
                assert(derives.deep_view() =~= seq!["Debug"@, "Clone"@]);
            }
            render_struct("KV", "pub", &derives, &fields)
        },
        None => String::new(),
    }
}

/// Writes the Rust source for a file and its schema: the struct `KV` and
/// the constant `KATS` with one literal per record, the text lines between
/// them as comments.
pub fn generate(kat: &Kat<'_>) -> (out: String)
    ensures
        out@ == generated(kat@),
{
    assemble(declaration(&kat.same_structure), kat)
}

/// Writes the collection of a file under a declaration that is given.
pub fn assemble(declaration: String, kat: &Kat<'_>) -> (out: String)
    ensures
        out@ == assembled(declaration@, kat@.same_structure, kat@.content),
{
    let items = &kat.content.0;
    let mut count: usize = 0;
    let mut i: usize = 0;
    while i < items.len()
        invariant
            i <= items.len(),
            count <= i,
            count == record_count(items.deep_view(), i as nat),
        decreases items.len() - i,
    {
        if let ContentItem::KVS(_) = &items[i].1 {
            count += 1;
        }
        i += 1;
    }
    let mut out = declaration;
    out.append("\n");
    out.append("pub const KATS : [KV; ");
    out.append(decimal_string(count).as_str());
    out.append("] = [\n");
    let ghost head = out@;
    let ghost schema = kat@.same_structure;
    let mut number: usize = 0;
    let mut k: usize = 0;
    while k < items.len()
        invariant
            k <= items.len(),
            number <= k,
            number == record_count(items.deep_view(), k as nat),
            schema == kat@.same_structure,
            out@ == head + items_text(schema, items.deep_view(), k as nat),
        decreases items.len() - k,
    {
        let ghost before = out@;
        let ghost done = items_text(schema, items.deep_view(), k as nat);
        match &items[k].1 {
            ContentItem::Text(text) => {
                out.append("// ");
                out.append(text.as_str());
                out.append("\n");
                proof {
                    let this = "// "@ + text@ + "\n"@;
                    assert(out@ =~= before + this);
                    assert(head + (done + this) =~= before + this);
                }
            },
            ContentItem::KVS(fields) => {
                let ghost this = item_text(schema, items.deep_view()[k as int].1, number as nat);
                match &kat.same_structure {
                    Some(schema_fields) => {
                        out.append("// KAT ");
                        out.append(decimal_string(number).as_str());
                        out.append("\n");
                        out.append("KV {\n");
                        out.append(typed_fields(schema_fields, fields).as_str());
                        out.append("},\n");
                        proof {
                            assert(out@ =~= before + this);
                        }
                    },
                    None => {
                        out.append(untyped_fields(fields).as_str());
                        proof {
                            assert(out@ =~= before + this);
                        }
                    },
                }
                proof {
                    assert(head + (done + this) =~= before + this);
                }
                number += 1;
            },
        }
        k += 1;
    }
    out.append("];\n");
    out
}

} // verus!
