use vstd::prelude::*;
use vstd::utf8::{
    decode_utf8, encode_scalar, encode_utf8, encode_utf8_decode_utf8, encode_utf8_valid_utf8,
    has_width_1_encoding, has_width_2_encoding, has_width_3_encoding, has_width_4_encoding,
    is_scalar, valid_utf8,
};

use crate::integer::{
    fits, fixed_be, int_payload, lemma_fixed_be, lemma_int_payload_injective, lemma_int_payload_order,
    push_fixed_be, push_range, read_be8, Integer,
};
use crate::order::{
    be_bytes, be_value, lemma_lex_asymmetric, lemma_lex_at_byte_extend, lemma_lex_total, lemma_lex_common_prefix, lemma_pow256_values,
    lex_lt, lex_lt_at_byte,
};

verus! {

/// Tag byte of a byte string.
pub const BYTES_TAG: u8 = 1;

/// Tag byte of a text.
pub const STRING_TAG: u8 = 2;

/// Tag byte of an integer.
pub const INT_TAG: u8 = 3;

/// Tag byte of a float.
pub const FLOAT_TAG: u8 = 4;

/// Tag byte of a boolean.
pub const BOOL_TAG: u8 = 5;

/// Tag byte of a blob that an outside serializer produced.
pub const ANY_TAG: u8 = 6;

/// A value that the store keeps. Exactly one kind is active, and the kind is
/// written into the encoded form as its first byte.
#[derive(Clone, Debug, PartialEq, Eq)]
pub enum Value {
    Bytes(Vec<u8>),
    String(String),
    Int(Integer),
    /// An IEEE-754 double, held as its bit pattern.
    Float(u64),
    Bool(bool),
    /// A structured value, already turned into bytes by the caller's serializer.
    Any(Vec<u8>),
}

/// What a [`Value`] stands for.
pub enum ValueView {
    Bytes(Seq<u8>),
    String(Seq<char>),
    Int(int),
    Float(u64),
    Bool(bool),
    Any(Seq<u8>),
}

impl View for Value {
    type V = ValueView;

    open spec fn view(&self) -> ValueView {
        match self {
            Value::Bytes(b) => ValueView::Bytes(b@),
            Value::String(s) => ValueView::String(s@),
            Value::Int(i) => ValueView::Int(i@),
            Value::Float(f) => ValueView::Float(*f),
            Value::Bool(b) => ValueView::Bool(*b),
            Value::Any(b) => ValueView::Any(b@),
        }
    }
}

/// Why a value could not be encoded or bytes could not be decoded.
#[derive(Clone, Copy, Debug, PartialEq, Eq, Structural)]
pub enum CodecError {
    /// The value has no key encoding (a serialized blob cannot be a key).
    UnsupportedType,
    /// Raw mode takes byte strings only.
    InvalidRawInput,
    /// The first byte names no kind, or there is no first byte.
    UnknownTag,
    /// The payload does not have the fixed width of its kind.
    Truncated,
    /// A text payload is not UTF-8.
    InvalidUtf8,
    /// An integer payload is not the encoding of any integer.
    InvalidInteger,
}

/// The tag byte of each kind.
pub open spec fn tag_of(v: ValueView) -> u8 {
    match v {
        ValueView::Bytes(_) => BYTES_TAG,
        ValueView::String(_) => STRING_TAG,
        ValueView::Int(_) => INT_TAG,
        ValueView::Float(_) => FLOAT_TAG,
        ValueView::Bool(_) => BOOL_TAG,
        ValueView::Any(_) => ANY_TAG,
    }
}

/// The bytes that follow the tag byte.
pub open spec fn payload(v: ValueView) -> Seq<u8> {
    match v {
        ValueView::Bytes(b) => b,
        ValueView::String(s) => encode_utf8(s),
        ValueView::Int(n) => int_payload(n),
        ValueView::Float(bits) => fixed_be(bits as nat, 8),
        ValueView::Bool(b) => seq![if b { 1u8 } else { 0u8 }],
        ValueView::Any(b) => b,
    }
}

/// The tagged encoding: one tag byte, then the payload.
pub open spec fn encoded(v: ValueView) -> Seq<u8> {
    seq![tag_of(v)] + payload(v)
}

/// What tagged bytes decode to.
pub open spec fn decoded(b: Seq<u8>) -> Result<ValueView, CodecError> {
    if b.len() == 0 {
        Err(CodecError::UnknownTag)
    } else {
        let p = b.drop_first();
        if b[0] == BYTES_TAG {
            Ok(ValueView::Bytes(p))
        } else if b[0] == STRING_TAG {
            if valid_utf8(p) {
                Ok(ValueView::String(decode_utf8(p)))
            } else {
                Err(CodecError::InvalidUtf8)
            }
        } else if b[0] == INT_TAG {
            if exists|n: int| int_payload(n) == p {
                Ok(ValueView::Int(choose|n: int| int_payload(n) == p))
            } else {
                Err(CodecError::InvalidInteger)
            }
        } else if b[0] == FLOAT_TAG {
            if p.len() == 8 {
                Ok(ValueView::Float(be_value(p) as u64))
            } else {
                Err(CodecError::Truncated)
            }
        } else if b[0] == BOOL_TAG {
            if p.len() == 1 {
                Ok(ValueView::Bool(p[0] != 0))
            } else {
                Err(CodecError::Truncated)
            }
        } else if b[0] == ANY_TAG {
            Ok(ValueView::Any(p))
        } else {
            Err(CodecError::UnknownTag)
        }
    }
}

/// How a key is stored. In raw mode only byte strings are accepted and they
/// are stored as they are; otherwise every kind but a serialized blob is.
pub open spec fn key_encoding(v: ValueView, raw_mode: bool) -> Result<Seq<u8>, CodecError> {
    if raw_mode {
        match v {
            ValueView::Bytes(b) => Ok(b),
            _ => Err(CodecError::InvalidRawInput),
        }
    } else {
        match v {
            ValueView::Any(_) => Err(CodecError::UnsupportedType),
            _ => Ok(encoded(v)),
        }
    }
}

/// How a value is stored: as a key is, but a serialized blob is accepted too.
pub open spec fn value_encoding(v: ValueView, raw_mode: bool) -> Result<Seq<u8>, CodecError> {
    if raw_mode {
        match v {
            ValueView::Bytes(b) => Ok(b),
            _ => Err(CodecError::InvalidRawInput),
        }
    } else {
        Ok(encoded(v))
    }
}

/// What stored bytes read back as: in raw mode the bytes themselves.
pub open spec fn value_decoding(b: Seq<u8>, raw_mode: bool) -> Result<ValueView, CodecError> {
    if raw_mode {
        Ok(ValueView::Bytes(b))
    } else {
        decoded(b)
    }
}

/// The view of an encoding result.
pub open spec fn bytes_result(r: Result<Vec<u8>, CodecError>) -> Result<Seq<u8>, CodecError> {
    match r {
        Ok(b) => Ok(b@),
        Err(e) => Err(e),
    }
}

/// The view of a decoding result.
pub open spec fn value_result(r: Result<Value, CodecError>) -> Result<ValueView, CodecError> {
    match r {
        Ok(v) => Ok(v@),
        Err(e) => Err(e),
    }
}

/// Relies on `String::from_utf8`: it accepts exactly the well-formed UTF-8
/// byte strings and keeps the characters that they spell.
#[verifier::external_body]
fn string_from_utf8(bytes: Vec<u8>) -> (r: Option<String>)
    ensures
        r is Some <==> valid_utf8(bytes@),
        r matches Some(s) ==> s@ == decode_utf8(bytes@),
{
    String::from_utf8(bytes).ok()
}

/// The tag byte of the value's kind.
pub fn encoding_byte(v_type: &Value) -> (r: u8)
    ensures
        r == tag_of(v_type@),
{
    match v_type {
        Value::Bytes(_) => BYTES_TAG,
        Value::String(_) => STRING_TAG,
        Value::Int(_) => INT_TAG,
        Value::Float(_) => FLOAT_TAG,
        Value::Bool(_) => BOOL_TAG,
        Value::Any(_) => ANY_TAG,
    }
}

/// One tag byte followed by the payload.
pub fn concat_type_encoding(encoding: u8, payload: &[u8]) -> (r: Vec<u8>)
    ensures
        r@ == seq![encoding] + payload@,
{
    let mut output: Vec<u8> = Vec::new();
    output.push(encoding);
    push_range(&mut output, payload, 0, payload.len());
    assert(payload@.subrange(0, payload@.len() as int) =~= payload@);
    output
}

/// The tagged encoding of any value.
pub fn encode_tagged(v: &Value) -> (r: Vec<u8>)
    ensures
        r@ == encoded(v@),
{
    let mut out: Vec<u8> = Vec::new();
    out.push(encoding_byte(v));
    match v {
        Value::Bytes(b) => {
            push_range(&mut out, b.as_slice(), 0, b.len());
            assert(b@.subrange(0, b@.len() as int) =~= b@);
        },
        Value::String(s) => {
            let bytes = s.as_str().as_bytes();
            push_range(&mut out, bytes, 0, bytes.len());
            assert(bytes@.subrange(0, bytes@.len() as int) =~= bytes@);
        },
        Value::Int(n) => {
            n.push_payload(&mut out);
        },
        Value::Float(bits) => {
            push_fixed_be(&mut out, *bits, 8);
        },
        Value::Bool(b) => {
            out.push(if *b { 1u8 } else { 0u8 });
        },
        Value::Any(b) => {
            push_range(&mut out, b.as_slice(), 0, b.len());
            assert(b@.subrange(0, b@.len() as int) =~= b@);
        },
    }
    assert(out@ =~= encoded(v@));
    out
}

/// Encodes a key for the store.
pub fn encode_key(key: &Value, raw_mode: bool) -> (r: Result<Vec<u8>, CodecError>)
    ensures
        bytes_result(r) == key_encoding(key@, raw_mode),
{
    if raw_mode {
        match key {
            Value::Bytes(b) => Ok(b.clone()),
            _ => Err(CodecError::InvalidRawInput),
        }
    } else {
        match key {
            Value::Any(_) => Err(CodecError::UnsupportedType),
            _ => Ok(encode_tagged(key)),
        }
    }
}

/// Encodes a value for the store.
pub fn encode_value(value: &Value, raw_mode: bool) -> (r: Result<Vec<u8>, CodecError>)
    ensures
        bytes_result(r) == value_encoding(value@, raw_mode),
{
    if raw_mode {
        match value {
            Value::Bytes(b) => Ok(b.clone()),
            _ => Err(CodecError::InvalidRawInput),
        }
    } else {
        Ok(encode_tagged(value))
    }
}

/// Decodes stored bytes.
pub fn decode_value(bytes: &[u8], raw_mode: bool) -> (r: Result<Value, CodecError>)
    ensures
        value_result(r) == value_decoding(bytes@, raw_mode),
        r matches Ok(v) ==> representable(v@),
{
    if raw_mode {
        let mut b: Vec<u8> = Vec::new();
        push_range(&mut b, bytes, 0, bytes.len());
        assert(b@ =~= bytes@);
        return Ok(Value::Bytes(b));
    }
    if bytes.len() == 0 {
        return Err(CodecError::UnknownTag);
    }
    let ghost p = bytes@.drop_first();
    let tag = bytes[0];
    let n = bytes.len();
    if tag == BYTES_TAG || tag == ANY_TAG || tag == STRING_TAG {
        let mut rest: Vec<u8> = Vec::new();
        push_range(&mut rest, bytes, 1, n);
        assert(rest@ =~= p);
        if tag == BYTES_TAG {
            Ok(Value::Bytes(rest))
        } else if tag == ANY_TAG {
            Ok(Value::Any(rest))
        } else {
            match string_from_utf8(rest) {
                Some(s) => Ok(Value::String(s)),
                None => Err(CodecError::InvalidUtf8),
            }
        }
    } else if tag == INT_TAG {
        let mut rest: Vec<u8> = Vec::new();
        push_range(&mut rest, bytes, 1, n);
        assert(rest@ =~= p);
        match Integer::from_payload(rest.as_slice()) {
            Some(i) => {
                proof {
                    assert forall|m: int| int_payload(m) == p implies m == i@ by {
                        lemma_int_payload_injective(m, i@);
                    }
                }
                Ok(Value::Int(i))
            },
            None => Err(CodecError::InvalidInteger),
        }
    } else if tag == FLOAT_TAG {
        if n != 9 {
            return Err(CodecError::Truncated);
        }
        let bits = read_be8(bytes, 1);
        assert(bytes@.subrange(1, 9) =~= p);
        Ok(Value::Float(bits))
    } else if tag == BOOL_TAG {
        if n != 2 {
            return Err(CodecError::Truncated);
        }
        Ok(Value::Bool(bytes[1] != 0))
    } else {
        Err(CodecError::UnknownTag)
    }
}

/// Code-point order on texts, the order in which their characters compare.
pub open spec fn text_lt(a: Seq<char>, b: Seq<char>) -> bool
    decreases a.len(),
{
    if a.len() == 0 {
        b.len() > 0
    } else if b.len() == 0 {
        false
    } else if a[0] != b[0] {
        (a[0] as u32) < (b[0] as u32)
    } else {
        text_lt(a.drop_first(), b.drop_first())
    }
}

/// The natural order of two values of one kind: byte strings by their bytes,
/// texts by code points, integers numerically, `false` before `true`. Floats
/// and serialized blobs have none here.
pub open spec fn natural_lt(a: ValueView, b: ValueView) -> bool {
    match (a, b) {
        (ValueView::Bytes(x), ValueView::Bytes(y)) => lex_lt(x, y),
        (ValueView::String(x), ValueView::String(y)) => text_lt(x, y),
        (ValueView::Int(x), ValueView::Int(y)) => x < y,
        (ValueView::Bool(x), ValueView::Bool(y)) => !x && y,
        _ => false,
    }
}

/// A kind whose keys sort in their natural order once encoded.
pub open spec fn order_preserving_kind(v: ValueView) -> bool {
    match v {
        ValueView::Bytes(_) | ValueView::String(_) | ValueView::Int(_) | ValueView::Bool(_) => true,
        _ => false,
    }
}

/// An integer whose magnitude bytes can be counted in a `usize`, as those
/// of every [`Integer`] can: its constructors and the decoder promise it.
pub open spec fn representable(v: ValueView) -> bool {
    match v {
        ValueView::Int(n) => fits(n),
        _ => true,
    }
}

/// Ranges of the leading byte of each width, and the byte order of two
/// scalars of one width, stated over the bytes of their encodings.
proof fn lemma_scalar_bytes(c1: u32, c2: u32)
    by (bit_vector)
    requires
        c1 < c2,
    ensures
        (0xC0u8 | ((c2 >> 6u32) & 0x1Fu32) as u8) >= 0xC0,
        (0xC0u8 | ((c2 >> 6u32) & 0x1Fu32) as u8) <= 0xDF,
        (0xE0u8 | ((c1 >> 12u32) & 0x0Fu32) as u8) >= 0xE0,
        (0xE0u8 | ((c2 >> 12u32) & 0x0Fu32) as u8) >= 0xE0,
        (0xE0u8 | ((c1 >> 12u32) & 0x0Fu32) as u8) <= 0xEF,
        (0xF0u8 | ((c2 >> 18u32) & 0x7u32) as u8) >= 0xF0,
        (0xC0u8 | ((c1 >> 6u32) & 0x1Fu32) as u8) <= 0xDF,
        c2 <= 0x7F ==> ((c1 & 0x7Fu32) as u8) < ((c2 & 0x7Fu32) as u8),
        ((c1 & 0x7Fu32) as u8) <= 0x7F,
        0x80 <= c1 && c2 <= 0x7FF ==> {
            ||| (0xC0u8 | ((c1 >> 6u32) & 0x1Fu32) as u8) < (0xC0u8 | ((c2 >> 6u32) & 0x1Fu32) as u8)
            ||| (0xC0u8 | ((c1 >> 6u32) & 0x1Fu32) as u8) == (0xC0u8 | ((c2 >> 6u32) & 0x1Fu32) as u8)
                && (0x80u8 | (c1 & 0x3Fu32) as u8) < (0x80u8 | (c2 & 0x3Fu32) as u8)
        },
        0x800 <= c1 && c2 <= 0xFFFF ==> {
            ||| (0xE0u8 | ((c1 >> 12u32) & 0x0Fu32) as u8) < (0xE0u8 | ((c2 >> 12u32) & 0x0Fu32) as u8)
            ||| (0xE0u8 | ((c1 >> 12u32) & 0x0Fu32) as u8) == (0xE0u8 | ((c2 >> 12u32) & 0x0Fu32) as u8)
                && (0x80u8 | ((c1 >> 6u32) & 0x3Fu32) as u8) < (0x80u8 | ((c2 >> 6u32) & 0x3Fu32) as u8)
            ||| (0xE0u8 | ((c1 >> 12u32) & 0x0Fu32) as u8) == (0xE0u8 | ((c2 >> 12u32) & 0x0Fu32) as u8)
                && (0x80u8 | ((c1 >> 6u32) & 0x3Fu32) as u8) == (0x80u8 | ((c2 >> 6u32) & 0x3Fu32) as u8)
                && (0x80u8 | (c1 & 0x3Fu32) as u8) < (0x80u8 | (c2 & 0x3Fu32) as u8)
        },
        0x10000 <= c1 && c2 <= 0x10FFFF ==> {
            ||| (0xF0u8 | ((c1 >> 18u32) & 0x7u32) as u8) < (0xF0u8 | ((c2 >> 18u32) & 0x7u32) as u8)
            ||| (0xF0u8 | ((c1 >> 18u32) & 0x7u32) as u8) == (0xF0u8 | ((c2 >> 18u32) & 0x7u32) as u8)
                && (0x80u8 | ((c1 >> 12u32) & 0x3Fu32) as u8) < (0x80u8 | ((c2 >> 12u32) & 0x3Fu32) as u8)
            ||| (0xF0u8 | ((c1 >> 18u32) & 0x7u32) as u8) == (0xF0u8 | ((c2 >> 18u32) & 0x7u32) as u8)
                && (0x80u8 | ((c1 >> 12u32) & 0x3Fu32) as u8) == (0x80u8 | ((c2 >> 12u32) & 0x3Fu32) as u8)
                && (0x80u8 | ((c1 >> 6u32) & 0x3Fu32) as u8) < (0x80u8 | ((c2 >> 6u32) & 0x3Fu32) as u8)
            ||| (0xF0u8 | ((c1 >> 18u32) & 0x7u32) as u8) == (0xF0u8 | ((c2 >> 18u32) & 0x7u32) as u8)
                && (0x80u8 | ((c1 >> 12u32) & 0x3Fu32) as u8) == (0x80u8 | ((c2 >> 12u32) & 0x3Fu32) as u8)
                && (0x80u8 | ((c1 >> 6u32) & 0x3Fu32) as u8) == (0x80u8 | ((c2 >> 6u32) & 0x3Fu32) as u8)
                && (0x80u8 | (c1 & 0x3Fu32) as u8) < (0x80u8 | (c2 & 0x3Fu32) as u8)
        },
{
}

/// A smaller scalar has a UTF-8 encoding that sorts first, at a byte inside both.
proof fn lemma_scalar_order(c1: u32, c2: u32)
    requires
        is_scalar(c1),
        is_scalar(c2),
        c1 < c2,
    ensures
        lex_lt_at_byte(encode_scalar(c1), encode_scalar(c2)),
{
    lemma_scalar_bytes(c1, c2);
    let e1 = encode_scalar(c1);
    let e2 = encode_scalar(c2);
    let w1 = e1.len();
    let w2 = e2.len();
    if w1 == w2 && e1[0] == e2[0] {
        let d1 = e1.drop_first();
        let d2 = e2.drop_first();
        assert(w1 >= 2);
        assert(d1[0] == e1[1] && d2[0] == e2[1]);
        if d1[0] == d2[0] {
            assert(w1 >= 3);
            let f1 = d1.drop_first();
            let f2 = d2.drop_first();
            assert(f1[0] == e1[2] && f2[0] == e2[2]);
            if f1[0] == f2[0] {
                assert(w1 == 4);
                let g1 = f1.drop_first();
                let g2 = f2.drop_first();
                assert(g1[0] == e1[3] && g2[0] == e2[3]);
                assert(g1[0] < g2[0]);
                assert(lex_lt_at_byte(g1, g2));
            }
            assert(lex_lt_at_byte(f1, f2));
        }
        assert(lex_lt_at_byte(d1, d2));
    } else {
        if has_width_1_encoding(c1) {
        } else if has_width_2_encoding(c1) {
            assert(!has_width_1_encoding(c2));
        } else if has_width_3_encoding(c1) {
            assert(has_width_3_encoding(c2) || has_width_4_encoding(c2));
        } else {
            assert(has_width_4_encoding(c2));
        }
        assert(e1[0] < e2[0]);
    }
}

/// Code-point order is total on distinct texts.
proof fn lemma_text_total(a: Seq<char>, b: Seq<char>)
    requires
        a != b,
    ensures
        text_lt(a, b) || text_lt(b, a),
    decreases a.len(),
{
    if a.len() > 0 && b.len() > 0 {
        if a[0] == b[0] {
            if a.drop_first() == b.drop_first() {
                assert(a =~= seq![a[0]] + a.drop_first());
                assert(b =~= seq![b[0]] + b.drop_first());
            }
            lemma_text_total(a.drop_first(), b.drop_first());
        } else {
            vstd::utf8::char_u32_cast(a[0], a[0] as u32);
            vstd::utf8::char_u32_cast(b[0], b[0] as u32);
        }
    } else if a.len() == 0 && b.len() == 0 {
        assert(a =~= b);
    }
}

/// UTF-8 keeps code-point order.
proof fn lemma_text_order(a: Seq<char>, b: Seq<char>)
    requires
        text_lt(a, b),
    ensures
        lex_lt(encode_utf8(a), encode_utf8(b)),
    decreases a.len(),
{
    if a.len() == 0 {
        assert(encode_utf8(b).len() > 0);
    } else {
        let ea = encode_scalar(a[0] as u32);
        let eb = encode_scalar(b[0] as u32);
        assert(encode_utf8(a) == ea + encode_utf8(a.drop_first()));
        assert(encode_utf8(b) == eb + encode_utf8(b.drop_first()));
        if a[0] != b[0] {
            vstd::utf8::char_is_scalar(a[0]);
            vstd::utf8::char_is_scalar(b[0]);
            lemma_scalar_order(a[0] as u32, b[0] as u32);
            lemma_lex_at_byte_extend(ea, eb, encode_utf8(a.drop_first()), encode_utf8(b.drop_first()));
        } else {
            lemma_text_order(a.drop_first(), b.drop_first());
            lemma_lex_common_prefix(ea, encode_utf8(a.drop_first()), encode_utf8(b.drop_first()));
        }
    }
}

/// Decoding gives back what was encoded, for every value. In raw mode, where
/// only byte strings are stored, the bytes come back as they were.
pub proof fn lemma_round_trip(v: ValueView, raw_mode: bool)
    ensures
        value_encoding(v, raw_mode) matches Ok(b) ==> value_decoding(b, raw_mode) == Ok::<
            ValueView,
            CodecError,
        >(v),
        key_encoding(v, raw_mode) matches Ok(b) ==> value_decoding(b, raw_mode) == Ok::<
            ValueView,
            CodecError,
        >(v),
        !raw_mode ==> value_encoding(v, raw_mode) is Ok,
        !raw_mode && !(v is Any) ==> key_encoding(v, raw_mode) is Ok,
        raw_mode && v is Bytes ==> value_encoding(v, raw_mode) is Ok && key_encoding(v, raw_mode) is Ok,
{
    let e = encoded(v);
    assert(e.drop_first() =~= payload(v));
    match v {
        ValueView::String(s) => {
            encode_utf8_valid_utf8(s);
            encode_utf8_decode_utf8(s);
        },
        ValueView::Int(n) => {
            let p = payload(v);
            assert(int_payload(n) == p);
            let m = choose|m: int| int_payload(m) == p;
            lemma_int_payload_injective(m, n);
        },
        ValueView::Float(bits) => {
            lemma_fixed_be(bits as nat, 8);
            lemma_pow256_values();
        },
        _ => {},
    }
}

/// Keys of one kind that sorts naturally keep their order once encoded:
/// the encoding of `a` sorts before that of `b` exactly when `a` comes
/// before `b`.
pub proof fn lemma_order_preserved(a: ValueView, b: ValueView)
    requires
        order_preserving_kind(a),
        tag_of(a) == tag_of(b),
        representable(a),
        representable(b),
    ensures
        natural_lt(a, b) <==> lex_lt(encoded(a), encoded(b)),
{
    if natural_lt(a, b) {
        lemma_order_one_way(a, b);
    } else {
        lemma_lex_asymmetric(encoded(a), encoded(b));
        if a != b {
            match (a, b) {
                (ValueView::Bytes(x), ValueView::Bytes(y)) => lemma_lex_total(x, y),
                (ValueView::String(x), ValueView::String(y)) => lemma_text_total(x, y),
                _ => {},
            }
            lemma_order_one_way(b, a);
        }
    }
}

proof fn lemma_order_one_way(a: ValueView, b: ValueView)
    requires
        order_preserving_kind(a),
        tag_of(a) == tag_of(b),
        representable(a),
        representable(b),
        natural_lt(a, b),
    ensures
        lex_lt(encoded(a), encoded(b)),
{
    match (a, b) {
        (ValueView::String(x), ValueView::String(y)) => {
            lemma_text_order(x, y);
        },
        (ValueView::Int(x), ValueView::Int(y)) => {
            lemma_int_payload_order(x, y);
            lemma_lex_at_byte_extend(int_payload(x), int_payload(y), Seq::empty(), Seq::empty());
            assert(int_payload(x) + Seq::<u8>::empty() =~= int_payload(x));
            assert(int_payload(y) + Seq::<u8>::empty() =~= int_payload(y));
        },
        _ => {},
    }
    lemma_lex_common_prefix(seq![tag_of(a)], payload(a), payload(b));
}

/// Values of different kinds never share an encoding, and their encodings
/// sort by tag byte alone, whatever the payloads hold.
pub proof fn lemma_tags_separate(a: ValueView, b: ValueView)
    requires
        tag_of(a) != tag_of(b),
    ensures
        encoded(a) != encoded(b),
        lex_lt(encoded(a), encoded(b)) <==> tag_of(a) < tag_of(b),
        lex_lt_at_byte(encoded(a), encoded(b)) <==> tag_of(a) < tag_of(b),
{
    assert(encoded(a)[0] == tag_of(a));
    assert(encoded(b)[0] == tag_of(b));
}

} // verus!
