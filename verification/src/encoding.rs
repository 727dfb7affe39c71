//! The variable-width control-byte encoding for lengths and small integers.
//!
//! The top two bits of the first byte select one of four classes: a 6-bit
//! length, a 14-bit length (big-endian, low 6 bits of byte 0 are the high
//! bits), a 32-bit length (big-endian in bytes 1..5, the rest of byte 0 is
//! padding), or a special class whose low 6 bits carry a mode (8-, 16- or
//! 32-bit little-endian signed integer, or a compressed string, which this
//! codec rejects).

use vstd::prelude::*;

use crate::error::FormatError;

verus! {

/// The class a control byte selects, named after the width of the length
/// field it announces; `Special` marks the tagged integer/compressed class.
#[derive(Debug, Clone, Copy, PartialEq, Eq, Structural)]
pub enum EncodingClass {
    Len6,
    Len14,
    Len32,
    Special,
}

/// What decoding a control byte (with its trailing length bytes) at the
/// head of `s` yields: the class, the bytes consumed by the control header,
/// and the payload length (string classes) or the mode (special class).
#[verifier::opaque]
pub open spec fn spec_decode_control(s: Seq<u8>) -> Result<(EncodingClass, int, int), FormatError> {
    if s.len() == 0 {
        Err(FormatError::TruncatedFile)
    } else {
        let b = s[0];
        if b < 0x40 {
            Ok((EncodingClass::Len6, 1int, b as int))
        } else if b < 0x80 {
            if s.len() < 2 {
                Err(FormatError::TruncatedFile)
            } else {
                Ok((EncodingClass::Len14, 2int, (b - 0x40) * 0x100 + s[1]))
            }
        } else if b < 0xC0 {
            if s.len() < 5 {
                Err(FormatError::TruncatedFile)
            } else {
                Ok((EncodingClass::Len32, 5int, ((s[1] * 0x100 + s[2]) * 0x100 + s[3]) * 0x100 + s[4]))
            }
        } else {
            let mode = b - 0xC0;
            if mode < 3 {
                Ok((EncodingClass::Special, 1int, mode as int))
            } else if mode == 3 {
                Err(FormatError::UnsupportedCompression)
            } else {
                Err(FormatError::UnsupportedEncoding)
            }
        }
    }
}

/// Decodes the control byte at the head of `buf`.
///
/// Returns the encoding class, the bytes the control header consumed
/// (1, 2 or 5) and the payload length or special mode, exactly as
/// [`spec_decode_control`] states; reading past the end of `buf` is
/// reported as `TruncatedFile`.
pub fn decode_control(buf: &[u8]) -> (r: Result<(EncodingClass, usize, usize), FormatError>)
    ensures
        (match r {
            Ok((c, h, l)) => spec_decode_control(buf@) == Ok::<_, FormatError>((c, h as int, l as int)),
            Err(e) => spec_decode_control(buf@) == Err::<(EncodingClass, int, int), _>(e),
        }),
        r matches Ok((c, h, l)) ==> 1 <= h <= buf@.len() && (c is Special ==> l <= 2) && l
            < 0x100000000,
{
    proof {
        reveal(spec_decode_control);
    }
    if buf.len() == 0 {
        return Err(FormatError::TruncatedFile);
    }
    let b = buf[0];
    if b < 0x40 {
        Ok((EncodingClass::Len6, 1, b as usize))
    } else if b < 0x80 {
        if buf.len() < 2 {
            return Err(FormatError::TruncatedFile);
        }
        let l: usize = ((b - 0x40) as usize) * 0x100 + buf[1] as usize;
        Ok((EncodingClass::Len14, 2, l))
    } else if b < 0xC0 {
        if buf.len() < 5 {
            return Err(FormatError::TruncatedFile);
        }
        let l: u32 = ((buf[1] as u32 * 0x100 + buf[2] as u32) * 0x100 + buf[3] as u32) * 0x100
            + buf[4] as u32;
        Ok((EncodingClass::Len32, 5, l as usize))
    } else {
        let mode = b - 0xC0;
        if mode < 3 {
            Ok((EncodingClass::Special, 1, mode as usize))
        } else if mode == 3 {
            Err(FormatError::UnsupportedCompression)
        } else {
            Err(FormatError::UnsupportedEncoding)
        }
    }
}

/// The shortest control-header encoding of a payload length: one byte for
/// lengths under 0x40, two for lengths under 0x4000, five otherwise.
pub open spec fn spec_encode_len(l: int) -> Seq<u8>
    recommends
        0 <= l < 0x100000000,
{
    if l < 0x40 {
        seq![l as u8]
    } else if l < 0x4000 {
        seq![(0x40 + l / 0x100) as u8, (l % 0x100) as u8]
    } else {
        seq![
            0x80u8,
            ((l / 0x1000000) % 0x100) as u8,
            ((l / 0x10000) % 0x100) as u8,
            ((l / 0x100) % 0x100) as u8,
            (l % 0x100) as u8,
        ]
    }
}

/// The length-class law: the encoder picks the minimal class that fits
/// (6-bit under 0x40, 14-bit under 0x4000, 32-bit otherwise), and decoding
/// the chosen header, whatever follows it, gives back exactly that class,
/// its header width and the encoded length.
pub proof fn lemma_decode_control_encode_len(l: int, rest: Seq<u8>)
    requires
        0 <= l < 0x100000000,
    ensures
        l < 0x40 ==> spec_encode_len(l).len() == 1 && spec_decode_control(spec_encode_len(l) + rest)
            == Ok::<_, FormatError>((EncodingClass::Len6, 1int, l)),
        0x40 <= l < 0x4000 ==> spec_encode_len(l).len() == 2 && spec_decode_control(
            spec_encode_len(l) + rest,
        ) == Ok::<_, FormatError>((EncodingClass::Len14, 2int, l)),
        0x4000 <= l ==> spec_encode_len(l).len() == 5 && spec_decode_control(
            spec_encode_len(l) + rest,
        ) == Ok::<_, FormatError>((EncodingClass::Len32, 5int, l)),
        spec_decode_control(spec_encode_len(l) + rest) == Ok::<_, FormatError>(
            (
                if l < 0x40 {
                    EncodingClass::Len6
                } else if l < 0x4000 {
                    EncodingClass::Len14
                } else {
                    EncodingClass::Len32
                },
                spec_encode_len(l).len() as int,
                l,
            ),
        ),
{
    reveal(spec_decode_control);
    let s = spec_encode_len(l) + rest;
    if l < 0x40 {
        assert(s[0] == l as u8);
        assert((l as u8) < 0x40);
    } else if l < 0x4000 {
        assert(s[0] == (0x40 + l / 0x100) as u8);
        assert(s[1] == (l % 0x100) as u8);
        assert(0x40 <= 0x40 + l / 0x100 < 0x80);
        assert(((0x40 + l / 0x100) as u8) - 0x40 == l / 0x100);
        assert((l / 0x100) * 0x100 + l % 0x100 == l) by (nonlinear_arith)
            requires
                0 <= l,
        ;
    } else {
        let d3 = (l / 0x1000000) % 0x100;
        let d2 = (l / 0x10000) % 0x100;
        let d1 = (l / 0x100) % 0x100;
        let d0 = l % 0x100;
        assert(s[0] == 0x80u8);
        assert(s[1] == d3 as u8 && s[2] == d2 as u8 && s[3] == d1 as u8 && s[4] == d0 as u8);
        assert(0 <= d3 < 0x100 && 0 <= d2 < 0x100 && 0 <= d1 < 0x100 && 0 <= d0 < 0x100);
        assert(((d3 * 0x100 + d2) * 0x100 + d1) * 0x100 + d0 == l) by (nonlinear_arith)
            requires
                0 <= l < 0x100000000,
                d3 == (l / 0x1000000) % 0x100,
                d2 == (l / 0x10000) % 0x100,
                d1 == (l / 0x100) % 0x100,
                d0 == l % 0x100,
        ;
    }
}

/// Appends the shortest control-header encoding of `l` to `out`.
pub fn encode_len(l: usize, out: &mut Vec<u8>)
    requires
        l < 0x100000000,
    ensures
        final(out)@ == old(out)@ + spec_encode_len(l as int),
{
    if l < 0x40 {
        out.push(l as u8);
        assert(out@ =~= old(out)@ + spec_encode_len(l as int));
    } else if l < 0x4000 {
        out.push((0x40 + l / 0x100) as u8);
        out.push((l % 0x100) as u8);
        assert(out@ =~= old(out)@ + spec_encode_len(l as int));
    } else {
        out.push(0x80u8);
        out.push(((l / 0x1000000) % 0x100) as u8);
        out.push(((l / 0x10000) % 0x100) as u8);
        out.push(((l / 0x100) % 0x100) as u8);
        out.push((l % 0x100) as u8);
        assert(out@ =~= old(out)@ + spec_encode_len(l as int));
    }
}

} // verus!
