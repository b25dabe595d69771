//! Values of the seven metric types and their cells in a file: an
//! 8-byte little-endian slot, or a NUL-terminated string of at most 255
//! bytes. Floating-point values are carried as their IEEE-754 bits.
use vstd::prelude::*;
use vstd::utf8::*;
use vstd::string::StringSliceAdditionalSpecFns;
use crate::bytes::{
    copy_bytes, cstr, cstr_len, get64, get_u64, le64, lemma_cstr, lemma_cstr_of_terminated, lemma_get64_at,
    put_bytes, put_u64,
};

verus! {

broadcast use {vstd::utf8::encode_utf8_valid_utf8, vstd::utf8::encode_utf8_decode_utf8};

/// Size of a numeric value cell.
pub const NUMERIC_VALUE_SIZE: usize = 8;
/// Size of a string cell, its NUL included.
pub const STRING_BLOCK_LEN: u64 = 256;

/// Type code of a metric.
#[derive(PartialEq, Eq, Structural, Clone, Copy, Debug)]
pub enum MTCode {
    /// 32-bit signed integer
    I32,
    /// 32-bit unsigned integer
    U32,
    /// 64-bit signed integer
    I64,
    /// 64-bit unsigned integer
    U64,
    /// 32-bit float
    F32,
    /// 64-bit float
    F64,
    /// string
    String,
}

impl MTCode {
    /// The code written in a metric block.
    pub open spec fn spec_code(self) -> u32 {
        match self {
            MTCode::I32 => 0,
            MTCode::U32 => 1,
            MTCode::I64 => 2,
            MTCode::U64 => 3,
            MTCode::F32 => 4,
            MTCode::F64 => 5,
            MTCode::String => 6,
        }
    }

    /// The code written in a metric block.
    pub fn code(self) -> (r: u32)
        ensures
            r == self.spec_code(),
    {
        match self {
            MTCode::I32 => 0,
            MTCode::U32 => 1,
            MTCode::I64 => 2,
            MTCode::U64 => 3,
            MTCode::F32 => 4,
            MTCode::F64 => 5,
            MTCode::String => 6,
        }
    }

    /// The type with code `x`, if there is one.
    pub fn from_u32(x: u32) -> (r: Option<MTCode>)
        ensures
            r is Some <==> x < 7,
            r matches Some(t) ==> t.spec_code() == x,
    {
        match x {
            0 => Some(MTCode::I32),
            1 => Some(MTCode::U32),
            2 => Some(MTCode::I64),
            3 => Some(MTCode::U64),
            4 => Some(MTCode::F32),
            5 => Some(MTCode::F64),
            6 => Some(MTCode::String),
            _ => None,
        }
    }
}

/// A metric value.
#[derive(Clone, PartialEq, Debug)]
pub enum Value {
    I32(i32),
    U32(u32),
    I64(i64),
    U64(u64),
    /// a 32-bit float, by its bits
    F32(u32),
    /// a 64-bit float, by its bits
    F64(u64),
    Str(String),
}

/// What a `Value` holds, with a string as its characters.
pub enum ValueView {
    I32(i32),
    U32(u32),
    I64(i64),
    U64(u64),
    F32(u32),
    F64(u64),
    Str(Seq<char>),
}

impl View for Value {
    type V = ValueView;

    open spec fn view(&self) -> ValueView {
        match self {
            Value::I32(x) => ValueView::I32(*x),
            Value::U32(x) => ValueView::U32(*x),
            Value::I64(x) => ValueView::I64(*x),
            Value::U64(x) => ValueView::U64(*x),
            Value::F32(x) => ValueView::F32(*x),
            Value::F64(x) => ValueView::F64(*x),
            Value::Str(s) => ValueView::Str(s@),
        }
    }
}

/// The type code of a value.
pub open spec fn type_of(v: ValueView) -> u32 {
    match v {
        ValueView::I32(_) => 0,
        ValueView::U32(_) => 1,
        ValueView::I64(_) => 2,
        ValueView::U64(_) => 3,
        ValueView::F32(_) => 4,
        ValueView::F64(_) => 5,
        ValueView::Str(_) => 6,
    }
}

/// The 8-byte slot of a value: the bits of a number, widened with zeros
/// after being read as unsigned of the same width; 0 for a string.
pub open spec fn slot_of(v: ValueView) -> u64 {
    match v {
        ValueView::I32(x) => (x as u32) as u64,
        ValueView::U32(x) => x as u64,
        ValueView::I64(x) => x as u64,
        ValueView::U64(x) => x,
        ValueView::F32(x) => x as u64,
        ValueView::F64(x) => x,
        ValueView::Str(_) => 0,
    }
}

/// The bytes a value puts in its cell: the slot little-endian, or the
/// string's UTF-8 bytes and a NUL.
pub open spec fn cell_of(v: ValueView) -> Seq<u8> {
    match v {
        ValueView::Str(s) => encode_utf8(s) + seq![0u8],
        _ => le64(slot_of(v)),
    }
}

/// A value that fits its cell: a string of at most 255 bytes.
pub open spec fn fits_cell(v: ValueView) -> bool {
    match v {
        ValueView::Str(s) => encode_utf8(s).len() <= 255,
        _ => true,
    }
}

/// The value that type code `code` and the cell `cell` stand for, if any:
/// a number from the first eight bytes, a string from the UTF-8 bytes
/// before the first NUL.
pub open spec fn value_of(code: u32, cell: Seq<u8>) -> Option<ValueView> {
    if code == 6 {
        if valid_utf8(cstr(cell)) {
            Some(ValueView::Str(decode_utf8(cstr(cell))))
        } else {
            None
        }
    } else if code > 6 || cell.len() < 8 {
        None
    } else {
        let x = get64(cell, 0);
        Some(
            if code == 0 {
                ValueView::I32((x as u32) as i32)
            } else if code == 1 {
                ValueView::U32(x as u32)
            } else if code == 2 {
                ValueView::I64(x as i64)
            } else if code == 3 {
                ValueView::U64(x)
            } else if code == 4 {
                ValueView::F32(x as u32)
            } else {
                ValueView::F64(x)
            },
        )
    }
}

/// Number of UTF-8 bytes of `s`.
pub fn byte_len(s: &str) -> (r: usize)
    ensures
        r == encode_utf8(s@).len(),
{
    s.as_bytes().len()
}

/// Why a cell could not be decoded.
#[derive(PartialEq, Eq, Structural, Clone, Copy, Debug)]
pub enum DecodeError {
    /// A type code above 6.
    InvalidTypeCode(u32),
    /// A numeric cell shorter than 8 bytes.
    ShortCell(u64),
    /// String bytes that are not UTF-8.
    Utf8,
}

/// Relies on `std::str::from_utf8`: it accepts exactly the valid UTF-8
/// byte strings, and then gives the text they encode.
#[verifier::external_body]
pub(crate) fn utf8_text(b: &[u8]) -> (r: Option<String>)
    ensures
        r is Some <==> valid_utf8(b@),
        r matches Some(s) ==> s@ == decode_utf8(b@),
{
    match std::str::from_utf8(b) {
        Ok(s) => Some(s.to_owned()),
        Err(_) => None,
    }
}

/// The text of the C string at the start of `b`, if it is UTF-8.
pub fn cstr_text(b: &[u8]) -> (r: Option<String>)
    ensures
        r is Some <==> valid_utf8(cstr(b@)),
        r matches Some(s) ==> s@ == decode_utf8(cstr(b@)),
{
    let n = cstr_len(b, 0, b.len());
    proof {
        assert(b@.subrange(0, b@.len() as int) =~= b@);
        lemma_cstr(b@, n as int);
    }
    let head = copy_bytes(b, 0, n);
    assert(head@ =~= b@.take(n as int));
    utf8_text(head.as_slice())
}

impl Value {
    /// The value's type code.
    pub fn type_code(&self) -> (r: u32)
        ensures
            r == type_of(self@),
    {
        match self {
            Value::I32(_) => 0,
            Value::U32(_) => 1,
            Value::I64(_) => 2,
            Value::U64(_) => 3,
            Value::F32(_) => 4,
            Value::F64(_) => 5,
            Value::Str(_) => 6,
        }
    }

    /// The value's 8-byte slot.
    pub fn slot(&self) -> (r: u64)
        ensures
            r == slot_of(self@),
    {
        match self {
            Value::I32(x) => (*x as u32) as u64,
            Value::U32(x) => *x as u64,
            Value::I64(x) => *x as u64,
            Value::U64(x) => *x,
            Value::F32(x) => *x as u64,
            Value::F64(x) => *x,
            Value::Str(_) => 0,
        }
    }
}

/// The bytes that `v` puts in its cell.
pub fn encode(v: &Value) -> (r: Vec<u8>)
    ensures
        r@ == cell_of(v@),
{
    let mut out: Vec<u8> = Vec::new();
    match v {
        Value::Str(s) => {
            put_bytes(&mut out, s.as_str().as_bytes());
            out.push(0);
        },
        _ => {
            put_u64(&mut out, v.slot());
        },
    }
    assert(out@ =~= cell_of(v@));
    out
}

/// The value of type `code` held in `cell`.
pub fn decode(code: u32, cell: &[u8]) -> (r: Result<Value, DecodeError>)
    ensures
        r is Ok <==> value_of(code, cell@) is Some,
        r matches Ok(v) ==> value_of(code, cell@) == Some(v@),
        code > 6 ==> r == Err::<Value, DecodeError>(DecodeError::InvalidTypeCode(code)),
{
    if code == 6 {
        match cstr_text(cell) {
            Some(s) => Ok(Value::Str(s)),
            None => Err(DecodeError::Utf8),
        }
    } else if code > 6 {
        Err(DecodeError::InvalidTypeCode(code))
    } else if cell.len() < 8 {
        Err(DecodeError::ShortCell(cell.len() as u64))
    } else {
        let x = get_u64(cell, 0);
        Ok(
            if code == 0 {
                Value::I32((x as u32) as i32)
            } else if code == 1 {
                Value::U32(x as u32)
            } else if code == 2 {
                Value::I64(x as i64)
            } else if code == 3 {
                Value::U64(x)
            } else if code == 4 {
                Value::F32(x as u32)
            } else {
                Value::F64(x)
            },
        )
    }
}

/// Decoding the cell of a value with the value's own type code gives the
/// value back, bit for bit; a string must fit its cell and hold no NUL.
pub proof fn lemma_codec_round_trip(v: ValueView)
    requires
        fits_cell(v),
        v matches ValueView::Str(s) ==> !encode_utf8(s).contains(0),
    ensures
        value_of(type_of(v), cell_of(v)) == Some(v),
{
    match v {
        ValueView::Str(s) => {
            let b = encode_utf8(s);
            assert(cell_of(v) =~= b + seq![0u8] + Seq::<u8>::empty());
            lemma_cstr_of_terminated(b, Seq::<u8>::empty());
        },
        _ => {
            let x = slot_of(v);
            assert(cell_of(v) =~= Seq::<u8>::empty() + le64(x) + Seq::<u8>::empty());
            lemma_get64_at(Seq::<u8>::empty(), x, Seq::<u8>::empty());
            match v {
                ValueView::I32(y) => {
                    assert((((y as u32) as u64) as u32) as i32 == y) by (bit_vector);
                },
                ValueView::I64(y) => {
                    assert((y as u64) as i64 == y) by (bit_vector);
                },
                ValueView::F32(y) => {
                    assert((y as u64) as u32 == y) by (bit_vector);
                },
                ValueView::U32(y) => {
                    assert((y as u64) as u32 == y) by (bit_vector);
                },
                _ => {},
            }
        },
    }
}

} // verus!

verus! {

impl Value {
    /// A copy of the value.
    pub fn duplicate(&self) -> (r: Value)
        ensures
            r@ == self@,
    {
        match self {
            Value::I32(x) => Value::I32(*x),
            Value::U32(x) => Value::U32(*x),
            Value::I64(x) => Value::I64(*x),
            Value::U64(x) => Value::U64(*x),
            Value::F32(x) => Value::F32(*x),
            Value::F64(x) => Value::F64(*x),
            Value::Str(s) => Value::Str(s.clone()),
        }
    }

    /// Whether the value fits its cell: a string of at most 255 bytes.
    pub fn fits_cell(&self) -> (r: bool)
        ensures
            r == fits_cell(self@),
    {
        match self {
            Value::Str(s) => byte_len(s.as_str()) <= 255,
            _ => true,
        }
    }
}


/// The largest character boundary of `b` at or below `n`.
pub open spec fn cut_from(b: Seq<u8>, n: int) -> int
    decreases n,
{
    if n <= 0 {
        0
    } else if is_char_boundary(b, n) {
        n
    } else {
        cut_from(b, n - 1)
    }
}

/// How many bytes of a string's UTF-8 bytes `b` its cell keeps: all of them
/// up to 255, else the longest prefix of at most 255 bytes that ends on a
/// character boundary.
pub open spec fn cut_len(b: Seq<u8>) -> int {
    if b.len() <= 255 {
        b.len() as int
    } else {
        cut_from(b, 255)
    }
}

/// `r` is `v` as its cell holds it: a string cut to `cut_len` bytes, any
/// other value unchanged.
pub open spec fn fitted(v: ValueView, r: ValueView) -> bool {
    match v {
        ValueView::Str(s) => r matches ValueView::Str(t) && encode_utf8(t) == encode_utf8(s).take(cut_len(encode_utf8(s))),
        _ => r == v,
    }
}

/// A value that already fits its cell is kept as it is.
pub proof fn lemma_fitted_keeps(v: ValueView, r: ValueView)
    requires
        fits_cell(v),
        fitted(v, r),
    ensures
        r == v,
{
    if let ValueView::Str(s) = v {
        let t = r->Str_0;
        assert(encode_utf8(s).take(encode_utf8(s).len() as int) =~= encode_utf8(s));
        assert(decode_utf8(encode_utf8(t)) == t);
        assert(decode_utf8(encode_utf8(s)) == s);
    }
}

/// The value as its cell holds it: a string of more than 255 bytes is cut at
/// the last character boundary within 255 bytes.
pub fn fit(v: Value) -> (r: Value)
    ensures
        fitted(v@, r@),
        fits_cell(r@),
        type_of(r@) == type_of(v@),
        fits_cell(v@) ==> r@ == v@,
{
    match v {
        Value::Str(s) => {
            let len = byte_len(s.as_str());
            if len <= 255 {
                assert(encode_utf8(s@).take(len as int) =~= encode_utf8(s@));
                return Value::Str(s);
            }
            let b = s.as_str();
            let ghost bytes = b.spec_bytes();
            assert(bytes == encode_utf8(s@));
            assert(valid_utf8(bytes));
            let mut n: usize = 255;
            while n > 0 && !b.is_char_boundary(n)
                invariant
                    n <= 255,
                    255 < bytes.len(),
                    b.spec_bytes() == bytes,
                    valid_utf8(bytes),
                    cut_from(bytes, 255) == cut_from(bytes, n as int),
                decreases n,
            {
                n = n - 1;
            }
            assert(is_char_boundary(bytes, n as int));
            assert(cut_from(bytes, n as int) == n);
            let (head, _) = b.split_at(n);
            let t = head.to_owned();
            assert(encode_utf8(t@) =~= bytes.take(n as int));
            Value::Str(t)
        },
        other => other,
    }
}

} // verus!
