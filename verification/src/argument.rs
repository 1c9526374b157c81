//! The constant pool codec: the thirteen typed constant values, their
//! byte-exact decoding and encoding, their canonical text and the
//! variable-reference classification.
use vstd::prelude::*;

use crate::errors::DumpError;
use crate::ksm_reader::{le_bytes_val, KSMFileReader};
use crate::text::{chars_of, dec_chars, push_char, push_dec, push_string};

verus! {

/// A typed constant value. The two float variants and the scalar-double
/// variant carry the raw little-endian bits of their payload.
#[derive(Debug)]
pub enum Value {
    NULL,
    Boolean(bool),
    Byte(i8),
    Int16(i16),
    Int32(i32),
    /// Raw bits of a 32-bit float.
    Float(u32),
    /// Raw bits of a 64-bit float.
    Double(u64),
    String(String),
    ARGMARKER,
    ScalarIntValue(i32),
    /// Raw bits of a 64-bit float.
    ScalarDoubleValue(u64),
    BooleanValue(bool),
    StringValue(String),
}

/// The mathematical model of a constant value: strings become character
/// sequences.
pub enum SpecValue {
    Null,
    Boolean(bool),
    Byte(i8),
    Int16(i16),
    Int32(i32),
    Float(u32),
    Double(u64),
    Str(Seq<char>),
    ArgMarker,
    ScalarInt(i32),
    ScalarDouble(u64),
    BoolValue(bool),
    StrValue(Seq<char>),
}

impl View for Value {
    type V = SpecValue;

    open spec fn view(&self) -> SpecValue {
        match self {
            Value::NULL => SpecValue::Null,
            Value::Boolean(b) => SpecValue::Boolean(*b),
            Value::Byte(b) => SpecValue::Byte(*b),
            Value::Int16(v) => SpecValue::Int16(*v),
            Value::Int32(v) => SpecValue::Int32(*v),
            Value::Float(bits) => SpecValue::Float(*bits),
            Value::Double(bits) => SpecValue::Double(*bits),
            Value::String(s) => SpecValue::Str(s@),
            Value::ARGMARKER => SpecValue::ArgMarker,
            Value::ScalarIntValue(v) => SpecValue::ScalarInt(*v),
            Value::ScalarDoubleValue(bits) => SpecValue::ScalarDouble(*bits),
            Value::BooleanValue(b) => SpecValue::BoolValue(*b),
            Value::StringValue(s) => SpecValue::StrValue(s@),
        }
    }
}

/// The type tag of a constant value (the first byte of its encoding).
pub open spec fn spec_type_num(v: SpecValue) -> u8 {
    match v {
        SpecValue::Null => 0,
        SpecValue::Boolean(_) => 1,
        SpecValue::Byte(_) => 2,
        SpecValue::Int16(_) => 3,
        SpecValue::Int32(_) => 4,
        SpecValue::Float(_) => 5,
        SpecValue::Double(_) => 6,
        SpecValue::Str(_) => 7,
        SpecValue::ArgMarker => 8,
        SpecValue::ScalarInt(_) => 9,
        SpecValue::ScalarDouble(_) => 10,
        SpecValue::BoolValue(_) => 11,
        SpecValue::StrValue(_) => 12,
    }
}

/// The number of bytes a constant value occupies in its encoded form:
/// one tag byte plus the payload.
pub open spec fn spec_value_len(v: SpecValue) -> int {
    match v {
        SpecValue::Null => 1,
        SpecValue::Boolean(_) => 2,
        SpecValue::Byte(_) => 2,
        SpecValue::Int16(_) => 3,
        SpecValue::Int32(_) => 5,
        SpecValue::Float(_) => 5,
        SpecValue::Double(_) => 9,
        SpecValue::Str(s) => 2 + s.len() as int,
        SpecValue::ArgMarker => 1,
        SpecValue::ScalarInt(_) => 5,
        SpecValue::ScalarDouble(_) => 9,
        SpecValue::BoolValue(_) => 2,
        SpecValue::StrValue(s) => 2 + s.len() as int,
    }
}

/// A value that the encoding can represent: its strings fit a one-byte
/// length prefix and each of their characters is a single byte code.
pub open spec fn value_wf(v: SpecValue) -> bool {
    match v {
        SpecValue::Str(s) => string_wf(s),
        SpecValue::StrValue(s) => string_wf(s),
        _ => true,
    }
}

/// A character sequence that the encoding can carry: at most 255 characters,
/// each a single byte code.
pub open spec fn string_wf(s: Seq<char>) -> bool {
    s.len() <= 255 && forall|j: int| 0 <= j < s.len() ==> (#[trigger] s[j]) as u32 <= 255
}

/// The little-endian bytes of the low `w` bytes of `n`.
pub open spec fn le_bytes_of(n: int, w: nat) -> Seq<u8>
    decreases w,
{
    if w == 0 {
        Seq::empty()
    } else {
        seq![(n % 256) as u8] + le_bytes_of(n / 256, (w - 1) as nat)
    }
}

/// The bytes of each character of `s`, one byte per character.
pub open spec fn bytes_of_chars(s: Seq<char>) -> Seq<u8> {
    s.map_values(|c: char| (c as u32) as u8)
}

/// The canonical encoding of a constant value: the type tag, then the
/// fixed-width or length-prefixed payload.
pub open spec fn spec_encode(v: SpecValue) -> Seq<u8> {
    seq![spec_type_num(v)] + match v {
        SpecValue::Null => Seq::empty(),
        SpecValue::Boolean(b) => seq![if b { 1u8 } else { 0u8 }],
        SpecValue::Byte(b) => seq![b as u8],
        SpecValue::Int16(n) => le_bytes_of(n as u16 as int, 2),
        SpecValue::Int32(n) => le_bytes_of(n as u32 as int, 4),
        SpecValue::Float(bits) => le_bytes_of(bits as int, 4),
        SpecValue::Double(bits) => le_bytes_of(bits as int, 8),
        SpecValue::Str(s) => seq![s.len() as u8] + bytes_of_chars(s),
        SpecValue::ArgMarker => Seq::empty(),
        SpecValue::ScalarInt(n) => le_bytes_of(n as u32 as int, 4),
        SpecValue::ScalarDouble(bits) => le_bytes_of(bits as int, 8),
        SpecValue::BoolValue(b) => seq![if b { 1u8 } else { 0u8 }],
        SpecValue::StrValue(s) => seq![s.len() as u8] + bytes_of_chars(s),
    }
}

/// The constant value decoded from `s` at byte offset `i`, or `None` where
/// the tag is unknown or the payload is cut short.
pub open spec fn spec_decode_value(s: Seq<u8>, i: int) -> Option<SpecValue> {
    if i < 0 || i >= s.len() {
        None
    } else {
        let tag = s[i];
        if tag == 0 {
            Some(SpecValue::Null)
        } else if tag == 1 {
            if i + 2 <= s.len() {
                Some(SpecValue::Boolean(s[i + 1] != 0))
            } else {
                None
            }
        } else if tag == 2 {
            if i + 2 <= s.len() {
                Some(SpecValue::Byte(s[i + 1] as i8))
            } else {
                None
            }
        } else if tag == 3 {
            if i + 3 <= s.len() {
                Some(SpecValue::Int16((le_bytes_val(s, i + 1, 2) as u16) as i16))
            } else {
                None
            }
        } else if tag == 4 {
            if i + 5 <= s.len() {
                Some(SpecValue::Int32((le_bytes_val(s, i + 1, 4) as u32) as i32))
            } else {
                None
            }
        } else if tag == 5 {
            if i + 5 <= s.len() {
                Some(SpecValue::Float(le_bytes_val(s, i + 1, 4) as u32))
            } else {
                None
            }
        } else if tag == 6 {
            if i + 9 <= s.len() {
                Some(SpecValue::Double(le_bytes_val(s, i + 1, 8) as u64))
            } else {
                None
            }
        } else if tag == 7 {
            if i + 2 <= s.len() && i + 2 + s[i + 1] <= s.len() {
                Some(SpecValue::Str(chars_of(s.subrange(i + 2, i + 2 + s[i + 1]))))
            } else {
                None
            }
        } else if tag == 8 {
            Some(SpecValue::ArgMarker)
        } else if tag == 9 {
            if i + 5 <= s.len() {
                Some(SpecValue::ScalarInt((le_bytes_val(s, i + 1, 4) as u32) as i32))
            } else {
                None
            }
        } else if tag == 10 {
            if i + 9 <= s.len() {
                Some(SpecValue::ScalarDouble(le_bytes_val(s, i + 1, 8) as u64))
            } else {
                None
            }
        } else if tag == 11 {
            if i + 2 <= s.len() {
                Some(SpecValue::BoolValue(s[i + 1] != 0))
            } else {
                None
            }
        } else if tag == 12 {
            if i + 2 <= s.len() && i + 2 + s[i + 1] <= s.len() {
                Some(SpecValue::StrValue(chars_of(s.subrange(i + 2, i + 2 + s[i + 1]))))
            } else {
                None
            }
        } else {
            None
        }
    }
}

/// The canonical text of a constant value: booleans as `true`/`false`,
/// integers in decimal, strings verbatim, fixed sentinel tokens for the null
/// value and the argument marker. Float variants have no text here: their
/// rendering is a presentation concern outside this library.
pub open spec fn spec_repr(v: SpecValue) -> Option<Seq<char>> {
    match v {
        SpecValue::Null => Some("NULL"@),
        SpecValue::Boolean(b) => Some(if b { "true"@ } else { "false"@ }),
        SpecValue::Byte(b) => Some(spec_signed_dec(b as int)),
        SpecValue::Int16(n) => Some(spec_signed_dec(n as int)),
        SpecValue::Int32(n) => Some(spec_signed_dec(n as int)),
        SpecValue::Float(_) => None,
        SpecValue::Double(_) => None,
        SpecValue::Str(s) => Some(s),
        SpecValue::ArgMarker => Some("ARGM"@),
        SpecValue::ScalarInt(n) => Some(spec_signed_dec(n as int)),
        SpecValue::ScalarDouble(_) => None,
        SpecValue::BoolValue(b) => Some(if b { "true"@ } else { "false"@ }),
        SpecValue::StrValue(s) => Some(s),
    }
}

/// The decimal text of a possibly negative number.
pub open spec fn spec_signed_dec(n: int) -> Seq<char> {
    if n < 0 {
        seq!['-'] + dec_chars((-n) as nat)
    } else {
        dec_chars(n as nat)
    }
}

/// True iff the value is a string or string-value whose text begins with
/// a dollar sign: the classification of a variable reference.
pub open spec fn spec_is_variable(v: SpecValue) -> bool {
    match v {
        SpecValue::Str(s) | SpecValue::StrValue(s) => s.len() > 0 && s[0] == '$',
        _ => false,
    }
}

/// The display name of each type tag.
pub open spec fn spec_type_str(t: int) -> Seq<char> {
    if t == 0 {
        "NULL"@
    } else if t == 1 {
        "BOOL"@
    } else if t == 2 {
        "BYTE"@
    } else if t == 3 {
        "INT16"@
    } else if t == 4 {
        "INT32"@
    } else if t == 5 {
        "F32"@
    } else if t == 6 {
        "F64"@
    } else if t == 7 {
        "STRING"@
    } else if t == 8 {
        "ARGMARKER"@
    } else if t == 9 {
        "SCALARINT"@
    } else if t == 10 {
        "SCALARF64"@
    } else if t == 11 {
        "BOOLVALUE"@
    } else {
        "STRINGVALUE"@
    }
}

/// One decoded constant of the pool: its type tag, its byte-offset index
/// within the pool's encoded stream, and the value itself.
#[derive(Debug)]
pub struct Argument {
    pub value_type: usize,
    pub address: u32,
    pub value: Value,
}

impl Argument {
    /// Bundles a type tag, a pool index and a value.
    pub fn new(value_type: usize, address: u32, value: Value) -> (r: Argument)
        ensures
            r.value_type == value_type,
            r.address == address,
            r.value == value,
    {
        Argument { value_type, address, value }
    }

    /// The canonical text of this argument's value, or `None` for the float
    /// variants, whose rendering is left to the presentation layer.
    pub fn get_repr(&self) -> (r: Option<String>)
        ensures
            r is Some <==> spec_repr(self.value@) is Some,
            r matches Some(s) ==> Some(s@) == spec_repr(self.value@),
    {
        match &self.value {
            Value::NULL => Some(String::from_str("NULL")),
            Value::Boolean(b) => Some(
                if *b {
                    String::from_str("true")
                } else {
                    String::from_str("false")
                },
            ),
            Value::Byte(b) => Some(signed_dec_string(*b as i64)),
            Value::Int16(n) => Some(signed_dec_string(*n as i64)),
            Value::Int32(n) => Some(signed_dec_string(*n as i64)),
            Value::Float(_) => None,
            Value::Double(_) => None,
            Value::String(s) => {
                let mut out = String::new();
                push_string(&mut out, s);
                Some(out)
            },
            Value::ARGMARKER => Some(String::from_str("ARGM")),
            Value::ScalarIntValue(n) => Some(signed_dec_string(*n as i64)),
            Value::ScalarDoubleValue(_) => None,
            Value::BooleanValue(b) => Some(
                if *b {
                    String::from_str("true")
                } else {
                    String::from_str("false")
                },
            ),
            Value::StringValue(s) => {
                let mut out = String::new();
                push_string(&mut out, s);
                Some(out)
            },
        }
    }

    /// True iff this argument holds a string whose text begins with `$`.
    pub fn is_variable(&self) -> (r: bool)
        ensures
            r == spec_is_variable(self.value@),
    {
        match &self.value {
            Value::String(s) => crate::text::starts_with_char(s, '$'),
            Value::StringValue(s) => crate::text::starts_with_char(s, '$'),
            _ => false,
        }
    }

    /// The display name of this argument's type tag.
    pub fn get_type_str(&self) -> (r: &'static str)
        requires
            self.value_type <= 12,
        ensures
            r@ == spec_type_str(self.value_type as int),
    {
        match self.value_type {
            0 => "NULL",
            1 => "BOOL",
            2 => "BYTE",
            3 => "INT16",
            4 => "INT32",
            5 => "F32",
            6 => "F64",
            7 => "STRING",
            8 => "ARGMARKER",
            9 => "SCALARINT",
            10 => "SCALARF64",
            11 => "BOOLVALUE",
            _ => "STRINGVALUE",
        }
    }

    /// The byte-offset index of this argument within the pool.
    pub fn get_address(&self) -> (r: u32)
        ensures
            r == self.address,
    {
        self.address
    }

    /// The decoded value.
    pub fn get_value(&self) -> (r: &Value)
        ensures
            r == self.value,
    {
        &self.value
    }

    /// The numeric type tag.
    pub fn get_type(&self) -> (r: usize)
        ensures
            r == self.value_type,
    {
        self.value_type
    }

    /// Decodes one constant value at the cursor: a type tag byte, then the
    /// payload that the tag dictates. The argument's pool index is the
    /// cursor position minus the four magic bytes that precede the pool.
    pub fn read(reader: &mut KSMFileReader) -> (r: Result<Argument, DumpError>)
        requires
            old(reader).wf(),
            4 <= old(reader).current_index,
            old(reader).current_index - 4 <= u32::MAX,
        ensures
            final(reader).wf(),
            final(reader).same_source(old(reader)),
            r is Ok <==> spec_decode_value(old(reader).contents@, old(reader).current_index as int)
                is Some,
            r matches Ok(arg) ==> {
                &&& Some(arg.value@) == spec_decode_value(
                    old(reader).contents@,
                    old(reader).current_index as int,
                )
                &&& arg.address == old(reader).current_index - 4
                &&& arg.value_type == old(reader).contents@[old(reader).current_index as int]
                &&& final(reader).current_index == old(reader).current_index + spec_value_len(
                    arg.value@,
                )
                &&& value_wf(arg.value@)
            },
            r matches Err(e) ==> {
                &&& (old(reader).current_index == old(reader).contents@.len() ==> e
                    == DumpError::UnexpectedEndOfInput)
                &&& (old(reader).current_index < old(reader).contents@.len() && old(
                    reader,
                ).contents@[old(reader).current_index as int] > 12 ==> e
                    == DumpError::UnknownConstantType(
                    old(reader).contents@[old(reader).current_index as int],
                ))
                &&& (old(reader).current_index < old(reader).contents@.len() && old(
                    reader,
                ).contents@[old(reader).current_index as int] <= 12 ==> e
                    == DumpError::UnexpectedEndOfInput)
            },
    {
        let address = reader.get_current_index() - 4;
        let value_type = reader.next()?;
        let ghost s = old(reader).contents@;
        let ghost i = old(reader).current_index as int;
        let value = match value_type {
            0 => Value::NULL,
            1 => Value::Boolean(reader.read_boolean()?),
            2 => Value::Byte(reader.read_byte()?),
            3 => Value::Int16(reader.read_int16()?),
            4 => Value::Int32(reader.read_int32()?),
            5 => Value::Float(reader.read_float_bits()?),
            6 => Value::Double(reader.read_double_bits()?),
            7 => Value::String(reader.read_string()?),
            8 => Value::ARGMARKER,
            9 => Value::ScalarIntValue(reader.read_int32()?),
            10 => Value::ScalarDoubleValue(reader.read_double_bits()?),
            11 => Value::BooleanValue(reader.read_boolean()?),
            12 => Value::StringValue(reader.read_string()?),
            _ => {
                return Err(DumpError::UnknownConstantType(value_type));
            },
        };
        proof {
            if value_type == 7 || value_type == 12 {
                assert(value_wf(value@)) by {
                    let sub = s.subrange(i + 2, i + 2 + s[i + 1]);
                    assert forall|j: int| 0 <= j < chars_of(sub).len() implies (#[trigger] chars_of(
                        sub,
                    )[j]) as u32 <= 255 by {
                        assert(chars_of(sub)[j] == sub[j] as char);
                    }
                }
            }
        }
        Ok(Argument::new(value_type as usize, address as u32, value))
    }
}

/// Copies a constant value.
pub fn clone_value(v: &Value) -> (r: Value)
    ensures
        r@ == v@,
{
    match v {
        Value::NULL => Value::NULL,
        Value::Boolean(b) => Value::Boolean(*b),
        Value::Byte(b) => Value::Byte(*b),
        Value::Int16(n) => Value::Int16(*n),
        Value::Int32(n) => Value::Int32(*n),
        Value::Float(bits) => Value::Float(*bits),
        Value::Double(bits) => Value::Double(*bits),
        Value::String(t) => {
            let mut out = String::new();
            crate::text::push_string(&mut out, t);
            Value::String(out)
        },
        Value::ARGMARKER => Value::ARGMARKER,
        Value::ScalarIntValue(n) => Value::ScalarIntValue(*n),
        Value::ScalarDoubleValue(bits) => Value::ScalarDoubleValue(*bits),
        Value::BooleanValue(b) => Value::BooleanValue(*b),
        Value::StringValue(t) => {
            let mut out = String::new();
            crate::text::push_string(&mut out, t);
            Value::StringValue(out)
        },
    }
}

/// The numeric type tag of a constant value.
pub fn type_num_of(v: &Value) -> (r: usize)
    ensures
        r == spec_type_num(v@),
{
    match v {
        Value::NULL => 0,
        Value::Boolean(_) => 1,
        Value::Byte(_) => 2,
        Value::Int16(_) => 3,
        Value::Int32(_) => 4,
        Value::Float(_) => 5,
        Value::Double(_) => 6,
        Value::String(_) => 7,
        Value::ARGMARKER => 8,
        Value::ScalarIntValue(_) => 9,
        Value::ScalarDoubleValue(_) => 10,
        Value::BooleanValue(_) => 11,
        Value::StringValue(_) => 12,
    }
}

/// Builds the decimal text of a possibly negative number.
pub fn signed_dec_string(n: i64) -> (r: String)
    requires
        n > i64::MIN,
    ensures
        r@ == spec_signed_dec(n as int),
{
    let mut out = String::new();
    if n < 0 {
        push_char(&mut out, '-');
        push_dec(&mut out, (-n) as u64);
        assert(out@ =~= seq!['-'] + dec_chars((-(n as int)) as nat));
    } else {
        push_dec(&mut out, n as u64);
    }
    out
}

/// Appends the low `w` bytes of `n`, least significant first.
fn push_le_bytes(buf: &mut Vec<u8>, n: u64, w: usize)
    ensures
        final(buf)@ == old(buf)@ + le_bytes_of(n as int, w as nat),
    decreases w,
{
    if w > 0 {
        buf.push((n % 256) as u8);
        push_le_bytes(buf, n / 256, w - 1);
        assert(final(buf)@ =~= old(buf)@ + le_bytes_of(n as int, w as nat));
    } else {
        assert(final(buf)@ =~= old(buf)@ + le_bytes_of(n as int, 0));
    }
}

impl Value {
    /// Appends the canonical encoding of this value: the type tag, then the
    /// fixed-width or length-prefixed payload.
    pub fn encode(&self, buf: &mut Vec<u8>)
        requires
            value_wf(self@),
        ensures
            final(buf)@ == old(buf)@ + spec_encode(self@),
    {
        match self {
            Value::NULL => {
                buf.push(0);
            },
            Value::Boolean(b) => {
                buf.push(1);
                buf.push(if *b {
                    1
                } else {
                    0
                });
            },
            Value::Byte(b) => {
                buf.push(2);
                buf.push(*b as u8);
            },
            Value::Int16(n) => {
                buf.push(3);
                push_le_bytes(buf, (*n as u16) as u64, 2);
            },
            Value::Int32(n) => {
                buf.push(4);
                push_le_bytes(buf, (*n as u32) as u64, 4);
            },
            Value::Float(bits) => {
                buf.push(5);
                push_le_bytes(buf, *bits as u64, 4);
            },
            Value::Double(bits) => {
                buf.push(6);
                push_le_bytes(buf, *bits, 8);
            },
            Value::String(s) => {
                buf.push(7);
                push_string_bytes(buf, s);
            },
            Value::ARGMARKER => {
                buf.push(8);
            },
            Value::ScalarIntValue(n) => {
                buf.push(9);
                push_le_bytes(buf, (*n as u32) as u64, 4);
            },
            Value::ScalarDoubleValue(bits) => {
                buf.push(10);
                push_le_bytes(buf, *bits, 8);
            },
            Value::BooleanValue(b) => {
                buf.push(11);
                buf.push(if *b {
                    1
                } else {
                    0
                });
            },
            Value::StringValue(s) => {
                buf.push(12);
                push_string_bytes(buf, s);
            },
        }
        assert(final(buf)@ =~= old(buf)@ + spec_encode(self@));
    }
}

/// Appends a length byte and then one byte per character of `s`.
fn push_string_bytes(buf: &mut Vec<u8>, s: &String)
    requires
        s@.len() <= 255,
    ensures
        final(buf)@ == old(buf)@ + seq![s@.len() as u8] + bytes_of_chars(s@),
{
    let n = s.as_str().unicode_len();
    buf.push(n as u8);
    let mut i: usize = 0;
    while i < n
        invariant
            i <= n == s@.len(),
            n <= 255,
            buf@ == old(buf)@ + seq![s@.len() as u8] + bytes_of_chars(s@.take(i as int)),
        decreases n - i,
    {
        let c = s.as_str().get_char(i);
        buf.push((c as u32) as u8);
        assert(bytes_of_chars(s@.take((i + 1) as int)) =~= bytes_of_chars(s@.take(i as int)).push(
            (c as u32) as u8,
        ));
        i = i + 1;
    }
    assert(s@.take(n as int) =~= s@);
}

proof fn lemma_le_bytes_of_len(n: int, w: nat)
    ensures
        le_bytes_of(n, w).len() == w,
    decreases w,
{
    if w > 0 {
        lemma_le_bytes_of_len(n / 256, (w - 1) as nat);
    }
}

proof fn lemma_le_val_window(s1: Seq<u8>, i1: int, s2: Seq<u8>, i2: int, w: nat)
    requires
        0 <= i1,
        0 <= i2,
        i1 + w <= s1.len(),
        i2 + w <= s2.len(),
        forall|j: int| 0 <= j < w ==> #[trigger] s1[i1 + j] == s2[i2 + j],
    ensures
        le_bytes_val(s1, i1, w) == le_bytes_val(s2, i2, w),
    decreases w,
{
    if w > 0 {
        assert(s1[i1 + 0] == s2[i2 + 0]);
        assert(s1[i1] == s2[i2]);
        assert forall|j: int| 0 <= j < w - 1 implies #[trigger] s1[i1 + 1 + j] == s2[i2 + 1 + j] by {
            assert(s1[i1 + (j + 1)] == s2[i2 + (j + 1)]);
        }
        lemma_le_val_window(s1, i1 + 1, s2, i2 + 1, (w - 1) as nat);
    }
}

proof fn lemma_le_val_of_bytes(n: int, w: nat)
    requires
        0 <= n < crate::ksm_reader::pow256(w),
    ensures
        le_bytes_val(le_bytes_of(n, w), 0, w) == n,
    decreases w,
{
    lemma_le_bytes_of_len(n, w);
    if w > 0 {
        let rest = le_bytes_of(n / 256, (w - 1) as nat);
        lemma_le_bytes_of_len(n / 256, (w - 1) as nat);
        assert(n / 256 < crate::ksm_reader::pow256((w - 1) as nat)) by (nonlinear_arith)
            requires
                0 <= n < 256 * crate::ksm_reader::pow256((w - 1) as nat),
        ;
        lemma_le_val_of_bytes(n / 256, (w - 1) as nat);
        let whole = le_bytes_of(n, w);
        assert(forall|j: int| 0 <= j < w - 1 ==> whole[1 + j] == rest[j]);
        lemma_le_val_window(whole, 1, rest, 0, (w - 1) as nat);
        assert(le_bytes_val(whole, 0, w) == whole[0] + 0x100 * le_bytes_val(whole, 1, (w - 1) as nat));
        assert(whole[0] == (n % 256) as u8);
    }
}

proof fn lemma_le_payload(s: Seq<u8>, i: int, u: int, w: nat)
    requires
        0 <= u < crate::ksm_reader::pow256(w),
        0 <= i,
        i + 1 + w <= s.len(),
        forall|j: int| 0 <= j < w ==> #[trigger] s[i + 1 + j] == le_bytes_of(u, w)[j],
    ensures
        le_bytes_val(s, i + 1, w) == u,
{
    lemma_le_bytes_of_len(u, w);
    lemma_le_val_window(s, i + 1, le_bytes_of(u, w), 0, w);
    lemma_le_val_of_bytes(u, w);
}

/// The round-trip law of the constant pool codec: decoding an encoded value,
/// at any position of any buffer that carries that encoding, yields the value
/// back, and the number of bytes consumed equals the value's encoded length.
pub proof fn lemma_value_round_trip(v: SpecValue, s: Seq<u8>, i: int)
    requires
        value_wf(v),
        0 <= i,
        i + spec_encode(v).len() <= s.len(),
        s.subrange(i, i + spec_encode(v).len()) == spec_encode(v),
    ensures
        spec_encode(v).len() == spec_value_len(v),
        spec_decode_value(s, i) == Some(v),
{
    let enc = spec_encode(v);
    assert forall|j: int| 0 <= j < enc.len() implies #[trigger] s[i + j] == enc[j] by {
        assert(s.subrange(i, i + enc.len())[j] == s[i + j]);
    }
    reveal_with_fuel(crate::ksm_reader::pow256, 9);
    assert(s[i + 0] == enc[0]);
    match v {
        SpecValue::Null => {
            assert(enc.len() == 1);
            assert(s[i + 0] == enc[0]);
            assert(s[i] == 0);
            assert(spec_decode_value(s, i) == Some(SpecValue::Null));
        },
        SpecValue::ArgMarker => {
            assert(s[i + 0] == enc[0]);
            assert(s[i] == 8);
        },
        SpecValue::Boolean(b) => {
            assert(s[i + 1] == enc[1]);
        },
        SpecValue::BoolValue(b) => {
            assert(s[i + 1] == enc[1]);
        },
        SpecValue::Byte(b) => {
            assert(s[i + 1] == b as u8);
            assert((b as u8) as i8 == b) by (bit_vector);
        },
        SpecValue::Int16(n) => {
            let u = n as u16;
            lemma_le_bytes_of_len(u as int, 2);
            assert forall|j: int| 0 <= j < 2 implies #[trigger] s[i + 1 + j] == le_bytes_of(
                u as int,
                2,
            )[j] by {
                assert(1 + j < enc.len());
                assert(s[i + (1 + j)] == enc[1 + j]);
                assert(enc[1 + j] == le_bytes_of(u as int, 2)[j]);
            }
            lemma_le_payload(s, i, u as int, 2);
            assert((n as u16) as i16 == n) by (bit_vector);
        },
        SpecValue::Int32(n) => {
            let u = n as u32;
            lemma_le_bytes_of_len(u as int, 4);
            assert forall|j: int| 0 <= j < 4 implies #[trigger] s[i + 1 + j] == le_bytes_of(
                u as int,
                4,
            )[j] by {
                assert(1 + j < enc.len());
                assert(s[i + (1 + j)] == enc[1 + j]);
                assert(enc[1 + j] == le_bytes_of(u as int, 4)[j]);
            }
            lemma_le_payload(s, i, u as int, 4);
            assert((n as u32) as i32 == n) by (bit_vector);
        },
        SpecValue::ScalarInt(n) => {
            let u = n as u32;
            lemma_le_bytes_of_len(u as int, 4);
            assert forall|j: int| 0 <= j < 4 implies #[trigger] s[i + 1 + j] == le_bytes_of(
                u as int,
                4,
            )[j] by {
                assert(1 + j < enc.len());
                assert(s[i + (1 + j)] == enc[1 + j]);
                assert(enc[1 + j] == le_bytes_of(u as int, 4)[j]);
            }
            lemma_le_payload(s, i, u as int, 4);
            assert((n as u32) as i32 == n) by (bit_vector);
        },
        SpecValue::Float(bits) => {
            lemma_le_bytes_of_len(bits as int, 4);
            assert forall|j: int| 0 <= j < 4 implies #[trigger] s[i + 1 + j] == le_bytes_of(
                bits as int,
                4,
            )[j] by {
                assert(1 + j < enc.len());
                assert(s[i + (1 + j)] == enc[1 + j]);
                assert(enc[1 + j] == le_bytes_of(bits as int, 4)[j]);
            }
            lemma_le_payload(s, i, bits as int, 4);
        },
        SpecValue::Double(bits) => {
            lemma_le_bytes_of_len(bits as int, 8);
            assert forall|j: int| 0 <= j < 8 implies #[trigger] s[i + 1 + j] == le_bytes_of(
                bits as int,
                8,
            )[j] by {
                assert(1 + j < enc.len());
                assert(s[i + (1 + j)] == enc[1 + j]);
                assert(enc[1 + j] == le_bytes_of(bits as int, 8)[j]);
            }
            lemma_le_payload(s, i, bits as int, 8);
        },
        SpecValue::ScalarDouble(bits) => {
            lemma_le_bytes_of_len(bits as int, 8);
            assert forall|j: int| 0 <= j < 8 implies #[trigger] s[i + 1 + j] == le_bytes_of(
                bits as int,
                8,
            )[j] by {
                assert(1 + j < enc.len());
                assert(s[i + (1 + j)] == enc[1 + j]);
                assert(enc[1 + j] == le_bytes_of(bits as int, 8)[j]);
            }
            lemma_le_payload(s, i, bits as int, 8);
        },
        SpecValue::Str(sv) => {
            lemma_string_round_trip(v, sv, s, i);
        },
        SpecValue::StrValue(sv) => {
            lemma_string_round_trip(v, sv, s, i);
        },
    }
}

proof fn lemma_string_round_trip(v: SpecValue, sv: Seq<char>, s: Seq<u8>, i: int)
    requires
        value_wf(v),
        v == SpecValue::Str(sv) || v == SpecValue::StrValue(sv),
        0 <= i,
        i + spec_encode(v).len() <= s.len(),
        s.subrange(i, i + spec_encode(v).len()) == spec_encode(v),
    ensures
        spec_decode_value(s, i) == Some(v),
{
    let enc = spec_encode(v);
    assert forall|j: int| 0 <= j < enc.len() implies #[trigger] s[i + j] == enc[j] by {
        assert(s.subrange(i, i + enc.len())[j] == s[i + j]);
    }
    assert(string_wf(sv));
    assert(enc.len() == 2 + sv.len());
    assert(s[i + 1] == sv.len() as u8);
    assert(s[i + 1] == sv.len());
    let sub = s.subrange(i + 2, i + 2 + sv.len());
    assert(s[i + 0] == enc[0]);
    assert(i + 2 + s[i + 1] <= s.len());
    assert(chars_of(sub) =~= sv) by {
        assert forall|j: int| 0 <= j < sv.len() implies chars_of(sub)[j] == sv[j] by {
            assert(s[i + (2 + j)] == enc[2 + j]);
            assert(sub[j] == s[i + 2 + j]);
            assert(enc[2 + j] == bytes_of_chars(sv)[j]);
            assert(bytes_of_chars(sv)[j] == (sv[j] as u32) as u8);
            assert(sv[j] as u32 <= 255);
            assert(((sv[j] as u32) as u8) as u32 == sv[j] as u32);
            assert(sub[j] as char == (sub[j] as u32) as char);
            vstd::utf8::char_u32_cast(sv[j], sv[j] as u32);
            assert(sub[j] as char == sv[j]);
        }
    }
}

} // verus!

