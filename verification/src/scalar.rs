//! Scalar materialization: UTF-8 strings and little-endian signed integers.
//!
//! A scalar starts with a control byte ([`crate::encoding`]). The string
//! classes are followed by that many payload bytes, read as UTF-8; the
//! special class holds an 8-, 16- or 32-bit little-endian two's-complement
//! integer. Multi-byte composition wraps around on purpose: the byte
//! pattern is reinterpreted, never range-checked.

use vstd::prelude::*;
use vstd::slice::slice_subrange;
use vstd::utf8::{decode_utf8, valid_utf8};

use crate::encoding::{decode_control, spec_decode_control, EncodingClass};
use crate::error::FormatError;

verus! {

/// One decoded scalar: text, a fixed-width signed integer, or the
/// defensive sentinel for control-byte patterns nothing recognizes
/// (never silently coerced to zero or an empty string).
#[derive(Debug, Clone, PartialEq)]
pub enum ScalarValue {
    Text(String),
    Int8(i8),
    Int16(i16),
    Int32(i32),
    Invalid,
}

/// The mathematical shape of a [`ScalarValue`]: text as its characters.
pub enum ScalarModel {
    Text(Seq<char>),
    Int8(i8),
    Int16(i16),
    Int32(i32),
    Invalid,
}

impl View for ScalarValue {
    type V = ScalarModel;

    open spec fn view(&self) -> ScalarModel {
        match self {
            ScalarValue::Text(s) => ScalarModel::Text(s@),
            ScalarValue::Int8(v) => ScalarModel::Int8(*v),
            ScalarValue::Int16(v) => ScalarModel::Int16(*v),
            ScalarValue::Int32(v) => ScalarModel::Int32(*v),
            ScalarValue::Invalid => ScalarModel::Invalid,
        }
    }
}

/// The unsigned value of the two little-endian bytes at the head of `s`.
pub open spec fn le16_v(s: Seq<u8>) -> u16
    recommends
        s.len() >= 2,
{
    ((s[1] as int) * 0x100 + (s[0] as int)) as u16
}

/// The unsigned value of the four little-endian bytes at the head of `s`.
pub open spec fn le32_v(s: Seq<u8>) -> u32
    recommends
        s.len() >= 4,
{
    ((s[3] as int) * 0x1000000 + (s[2] as int) * 0x10000 + (s[1] as int) * 0x100 + (
    s[0] as int)) as u32
}

/// The unsigned value of the eight little-endian bytes at the head of `s`.
pub open spec fn le64_v(s: Seq<u8>) -> u64
    recommends
        s.len() >= 8,
{
    ((s[7] as int) * 0x100000000000000 + (s[6] as int) * 0x1000000000000 + (s[5] as int)
        * 0x10000000000 + (s[4] as int) * 0x100000000 + (s[3] as int) * 0x1000000 + (s[2] as int)
        * 0x10000 + (s[1] as int) * 0x100 + (s[0] as int)) as u64
}

/// What decoding one scalar at the head of `s` yields: the scalar and the
/// total bytes consumed, control header included.
#[verifier::opaque]
pub open spec fn spec_decode_scalar(s: Seq<u8>) -> Result<(ScalarModel, int), FormatError> {
    match spec_decode_control(s) {
        Err(e) => Err(e),
        Ok((c, h, l)) => match c {
            EncodingClass::Special => {
                if l == 0 {
                    if s.len() < 2 {
                        Err(FormatError::TruncatedFile)
                    } else {
                        Ok((ScalarModel::Int8(s[1] as i8), 2int))
                    }
                } else if l == 1 {
                    if s.len() < 3 {
                        Err(FormatError::TruncatedFile)
                    } else {
                        Ok((ScalarModel::Int16(le16_v(s.skip(1)) as i16), 3int))
                    }
                } else {
                    if s.len() < 5 {
                        Err(FormatError::TruncatedFile)
                    } else {
                        Ok((ScalarModel::Int32(le32_v(s.skip(1)) as i32), 5int))
                    }
                }
            },
            _ => {
                if s.len() < h + l {
                    Err(FormatError::TruncatedFile)
                } else if valid_utf8(s.subrange(h, h + l)) {
                    Ok((ScalarModel::Text(decode_utf8(s.subrange(h, h + l))), h + l))
                } else {
                    Err(FormatError::InvalidUtf8)
                }
            },
        },
    }
}

/// Relies on core::str::from_utf8: it returns `Ok` exactly when the bytes
/// are valid UTF-8, and the resulting string consists of the characters
/// those bytes encode.
#[verifier::external_body]
fn utf8_to_string(bytes: &[u8]) -> (r: Option<String>)
    ensures
        r is Some <==> valid_utf8(bytes@),
        r matches Some(s) ==> s@ == decode_utf8(bytes@),
{
    match core::str::from_utf8(bytes) {
        Ok(s) => Some(s.to_string()),
        Err(_) => None,
    }
}

/// Decodes one scalar at the head of `buf`, as [`spec_decode_scalar`]
/// states: the string classes read their payload as UTF-8 (failing with
/// `InvalidUtf8`, never substituting), the special modes read a
/// little-endian two's-complement integer of their width, and any read
/// past the end of `buf` is `TruncatedFile`.
pub fn decode_scalar(buf: &[u8]) -> (r: Result<(ScalarValue, usize), FormatError>)
    ensures
        (match r {
            Ok((v, n)) => spec_decode_scalar(buf@) == Ok::<_, FormatError>((v@, n as int)),
            Err(e) => spec_decode_scalar(buf@) == Err::<(ScalarModel, int), _>(e),
        }),
        r matches Ok((v, n)) ==> 1 <= n <= buf@.len(),
{
    proof {
        reveal(spec_decode_scalar);
    }
    let (c, h, l) = match decode_control(buf) {
        Ok(t) => t,
        Err(e) => {
            return Err(e);
        },
    };
    match c {
        EncodingClass::Special => {
            if l == 0 {
                if buf.len() < 2 {
                    return Err(FormatError::TruncatedFile);
                }
                Ok((ScalarValue::Int8(#[verifier::truncate] (buf[1] as i8)), 2))
            } else if l == 1 {
                if buf.len() < 3 {
                    return Err(FormatError::TruncatedFile);
                }
                let x: u16 = (buf[2] as u16) * 0x100 + (buf[1] as u16);
                assert(x == le16_v(buf@.skip(1)));
                Ok((ScalarValue::Int16(#[verifier::truncate] (x as i16)), 3))
            } else {
                if buf.len() < 5 {
                    return Err(FormatError::TruncatedFile);
                }
                let x: u32 = (buf[4] as u32) * 0x1000000 + (buf[3] as u32) * 0x10000 + (
                buf[2] as u32) * 0x100 + (buf[1] as u32);
                assert(x == le32_v(buf@.skip(1)));
                Ok((ScalarValue::Int32(#[verifier::truncate] (x as i32)), 5))
            }
        },
        _ => {
            if l > buf.len() - h {
                return Err(FormatError::TruncatedFile);
            }
            let payload = slice_subrange(buf, h, h + l);
            match utf8_to_string(payload) {
                Some(s) => Ok((ScalarValue::Text(s), h + l)),
                None => Err(FormatError::InvalidUtf8),
            }
        },
    }
}

/// The compact special-class encoding of a signed integer: the narrowest
/// of the 8-, 16- and 32-bit modes that holds it, little-endian.
pub open spec fn spec_encode_int(v: i32) -> Seq<u8> {
    if -0x80 <= v < 0x80 {
        seq![0xC0u8, v as u8]
    } else if -0x8000 <= v < 0x8000 {
        seq![0xC1u8, v as u8, ((v as u16) / 0x100) as u8]
    } else {
        seq![
            0xC2u8,
            v as u8,
            (((v as u32) / 0x100) % 0x100) as u8,
            (((v as u32) / 0x10000) % 0x100) as u8,
            ((v as u32) / 0x1000000) as u8,
        ]
    }
}

/// The compact integer encoding is the exact inverse of the scalar
/// decoder: decoding it, whatever follows, gives back the integer in the
/// narrowest mode that holds it, sign preserved.
pub proof fn lemma_decode_encode_int(v: i32, rest: Seq<u8>)
    ensures
        -0x80 <= v < 0x80 ==> spec_decode_scalar(spec_encode_int(v) + rest) == Ok::<
            _,
            FormatError,
        >((ScalarModel::Int8(v as i8), 2int)) && v as i8 as int == v as int,
        -0x8000 <= v < 0x8000 && !(-0x80 <= v < 0x80) ==> spec_decode_scalar(
            spec_encode_int(v) + rest,
        ) == Ok::<_, FormatError>((ScalarModel::Int16(v as i16), 3int)) && v as i16 as int
            == v as int,
        !(-0x8000 <= v < 0x8000) ==> spec_decode_scalar(spec_encode_int(v) + rest) == Ok::<
            _,
            FormatError,
        >((ScalarModel::Int32(v), 5int)),
{
    reveal(spec_decode_scalar);
    reveal(spec_decode_control);
    let s = spec_encode_int(v) + rest;
    if -0x80 <= v < 0x80 {
        assert(s[0] == 0xC0u8 && s[1] == v as u8);
        assert(v as u8 as i8 == v as i8 && v as i8 as int == v as int) by (bit_vector)
            requires
                -0x80 <= v < 0x80,
        ;
    } else if -0x8000 <= v < 0x8000 {
        assert(s[0] == 0xC1u8 && s[1] == v as u8 && s[2] == ((v as u16) / 0x100) as u8);
        let m = s.skip(1);
        assert(m[0] == v as u8 && m[1] == ((v as u16) / 0x100) as u8);
        assert({
            let x = ((((v as u16) / 0x100) as u8 as int) * 0x100 + (v as u8 as int)) as u16;
            x as i16 == v as i16 && v as i16 as int == v as int
        }) by (bit_vector)
            requires
                -0x8000 <= v < 0x8000,
        ;
    } else {
        let w = v as u32;
        assert(s[0] == 0xC2u8 && s[1] == v as u8 && s[2] == ((w / 0x100) % 0x100) as u8 && s[3] == (
        (w / 0x10000) % 0x100) as u8 && s[4] == (w / 0x1000000) as u8);
        let m = s.skip(1);
        assert(m[0] == s[1] && m[1] == s[2] && m[2] == s[3] && m[3] == s[4]);
        assert({
            let x = (((v as u32) / 0x1000000) as u8 as int) * 0x1000000 + ((((v as u32) / 0x10000)
                % 0x100) as u8 as int) * 0x10000 + ((((v as u32) / 0x100) % 0x100) as u8 as int)
                * 0x100 + (v as u8 as int);
            (x as u32) as i32 == v
        }) by (bit_vector);
    }
}

/// Encodes `v` in the narrowest special integer mode that holds it.
pub fn encode_int(v: i32) -> (r: Vec<u8>)
    ensures
        r@ == spec_encode_int(v),
{
    let mut out: Vec<u8> = Vec::new();
    if -0x80 <= v && v < 0x80 {
        out.push(0xC0u8);
        out.push(#[verifier::truncate] (v as u8));
    } else if -0x8000 <= v && v < 0x8000 {
        out.push(0xC1u8);
        out.push(#[verifier::truncate] (v as u8));
        let w = #[verifier::truncate] (v as u16);
        out.push((w / 0x100) as u8);
    } else {
        out.push(0xC2u8);
        out.push(#[verifier::truncate] (v as u8));
        let w = #[verifier::truncate] (v as u32);
        out.push(((w / 0x100) % 0x100) as u8);
        out.push(((w / 0x10000) % 0x100) as u8);
        out.push((w / 0x1000000) as u8);
    }
    assert(out@ =~= spec_encode_int(v));
    out
}

} // verus!
