//! The opcode dispatcher: one record per step over the snapshot body.
//!
//! The byte at the cursor is matched against the fixed opcode set first
//! (end-of-stream, database selector, the two expiry prefixes, resize
//! hint, auxiliary field); any other byte is a value type tag opening a
//! plain key/value entry. That ordering is a property of the format: the
//! opcode space and the value-type tag space are the same byte space.

use vstd::prelude::*;
use vstd::slice::slice_subrange;

use crate::encoding::{decode_control, spec_decode_control, EncodingClass};
use crate::error::FormatError;
use crate::scalar::{decode_scalar, le32_v, le64_v, spec_decode_scalar, ScalarModel, ScalarValue};

verus! {

/// One key/value datum of the snapshot body. The expiry, when present, is
/// normalized to milliseconds whichever opcode carried it.
#[derive(Debug, Clone, PartialEq)]
pub struct Entry {
    pub key: ScalarValue,
    pub value: ScalarValue,
    pub expire_at_ms: Option<u64>,
}

/// The mathematical shape of an [`Entry`].
pub struct EntryModel {
    pub key: ScalarModel,
    pub value: ScalarModel,
    pub expire_at_ms: Option<u64>,
}

impl View for Entry {
    type V = EntryModel;

    open spec fn view(&self) -> EntryModel {
        EntryModel { key: self.key@, value: self.value@, expire_at_ms: self.expire_at_ms }
    }
}

/// One parsed record of the snapshot body.
#[derive(Debug, Clone, PartialEq)]
pub enum Record {
    /// The terminal opcode; nothing follows but the unchecked trailer.
    EndOfFile,
    /// A database selector; only index zero is supported.
    SelectDatabase(u8),
    /// Advisory table sizes; consumed, never acted on.
    ResizeHint(usize, usize),
    /// A metadata pair; informational only.
    AuxiliaryField(ScalarValue, ScalarValue),
    /// A live key/value entry.
    Entry(Entry),
}

/// The mathematical shape of a [`Record`].
pub enum RecordModel {
    EndOfFile,
    SelectDatabase(u8),
    ResizeHint(int, int),
    AuxiliaryField(ScalarModel, ScalarModel),
    Entry(EntryModel),
}

impl View for Record {
    type V = RecordModel;

    open spec fn view(&self) -> RecordModel {
        match self {
            Record::EndOfFile => RecordModel::EndOfFile,
            Record::SelectDatabase(i) => RecordModel::SelectDatabase(*i),
            Record::ResizeHint(a, b) => RecordModel::ResizeHint(*a as int, *b as int),
            Record::AuxiliaryField(k, v) => RecordModel::AuxiliaryField(k@, v@),
            Record::Entry(e) => RecordModel::Entry(e@),
        }
    }
}

/// What decoding a key scalar followed by a value scalar at the head of
/// `s` yields, with the total bytes consumed.
pub open spec fn spec_scan_kv(s: Seq<u8>) -> Result<((ScalarModel, ScalarModel), int), FormatError> {
    match spec_decode_scalar(s) {
        Err(e) => Err(e),
        Ok((k, n1)) => match spec_decode_scalar(s.skip(n1)) {
            Err(e) => Err(e),
            Ok((v, n2)) => Ok(((k, v), n1 + n2)),
        },
    }
}

/// What scanning one record at the head of `s` yields: the record and the
/// bytes consumed. The opcode set is checked before the value-type
/// fallthrough, and only the string value type (tag zero) is supported.
/// A resize hint's two fields must be length classes; a special-class
/// control byte there fails closed as an unsupported encoding.
#[verifier::opaque]
pub open spec fn spec_scan_one(s: Seq<u8>) -> Result<(RecordModel, int), FormatError> {
    if s.len() == 0 {
        Err(FormatError::TruncatedFile)
    } else if s[0] == 0xFF {
        Ok((RecordModel::EndOfFile, 1int))
    } else if s[0] == 0xFE {
        if s.len() < 2 {
            Err(FormatError::TruncatedFile)
        } else if s[1] != 0 {
            Err(FormatError::UnsupportedFeature)
        } else {
            Ok((RecordModel::SelectDatabase(0), 2int))
        }
    } else if s[0] == 0xFD {
        if s.len() < 5 {
            Err(FormatError::TruncatedFile)
        } else {
            match spec_scan_kv(s.skip(5)) {
                Err(e) => Err(e),
                Ok(((k, v), n)) => Ok(
                    (
                        RecordModel::Entry(
                            EntryModel {
                                key: k,
                                value: v,
                                expire_at_ms: Some(((le32_v(s.skip(1)) as int) * 1000) as u64),
                            },
                        ),
                        5 + n,
                    ),
                ),
            }
        }
    } else if s[0] == 0xFC {
        if s.len() < 9 {
            Err(FormatError::TruncatedFile)
        } else {
            match spec_scan_kv(s.skip(9)) {
                Err(e) => Err(e),
                Ok(((k, v), n)) => Ok(
                    (
                        RecordModel::Entry(
                            EntryModel { key: k, value: v, expire_at_ms: Some(le64_v(s.skip(1))) },
                        ),
                        9 + n,
                    ),
                ),
            }
        }
    } else if s[0] == 0xFB {
        match spec_decode_control(s.skip(1)) {
            Err(e) => Err(e),
            Ok((c1, h1, l1)) => {
                if c1 is Special {
                    Err(FormatError::UnsupportedEncoding)
                } else {
                    match spec_decode_control(s.skip(1 + h1)) {
                        Err(e) => Err(e),
                        Ok((c2, h2, l2)) => {
                            if c2 is Special {
                                Err(FormatError::UnsupportedEncoding)
                            } else {
                                Ok((RecordModel::ResizeHint(l1, l2), 1 + h1 + h2))
                            }
                        },
                    }
                }
            },
        }
    } else if s[0] == 0xFA {
        match spec_scan_kv(s.skip(1)) {
            Err(e) => Err(e),
            Ok(((k, v), n)) => Ok((RecordModel::AuxiliaryField(k, v), 1 + n)),
        }
    } else if s[0] != 0 {
        Err(FormatError::UnsupportedValueType)
    } else {
        match spec_scan_kv(s.skip(1)) {
            Err(e) => Err(e),
            Ok(((k, v), n)) => Ok(
                (RecordModel::Entry(EntryModel { key: k, value: v, expire_at_ms: None }), 1 + n),
            ),
        }
    }
}

/// Decodes a key scalar then a value scalar at the head of `buf`, as
/// [`spec_scan_kv`] states.
fn scan_kv(buf: &[u8]) -> (r: Result<((ScalarValue, ScalarValue), usize), FormatError>)
    ensures
        (match r {
            Ok(((k, v), n)) => spec_scan_kv(buf@) == Ok::<_, FormatError>(((k@, v@), n as int)),
            Err(e) => spec_scan_kv(buf@) == Err::<((ScalarModel, ScalarModel), int), _>(e),
        }),
        r matches Ok((kv, n)) ==> 2 <= n <= buf@.len(),
{
    let (k, n1) = match decode_scalar(buf) {
        Ok(t) => t,
        Err(e) => {
            return Err(e);
        },
    };
    let tail = slice_subrange(buf, n1, buf.len());
    let (v, n2) = match decode_scalar(tail) {
        Ok(t) => t,
        Err(e) => {
            return Err(e);
        },
    };
    assert(tail@ =~= buf@.skip(n1 as int));
    Ok(((k, v), n1 + n2))
}

/// Scans exactly one record of `buffer` at `cursor`.
///
/// On success the returned cursor points one byte past the record, having
/// advanced by exactly what [`spec_scan_one`] says the record consumed;
/// every failure is the error [`spec_scan_one`] gives for that suffix.
#[verifier::rlimit(80)]
pub fn scan_one(buffer: &[u8], cursor: usize) -> (r: Result<(Record, usize), FormatError>)
    requires
        cursor <= buffer@.len(),
    ensures
        (match r {
            Ok((rec, nc)) => spec_scan_one(buffer@.skip(cursor as int)) == Ok::<_, FormatError>(
                (rec@, nc - cursor),
            ) && cursor < nc <= buffer@.len(),
            Err(e) => spec_scan_one(buffer@.skip(cursor as int)) == Err::<(RecordModel, int), _>(e),
        }),
{
    proof {
        reveal(spec_scan_one);
    }
    let s = slice_subrange(buffer, cursor, buffer.len());
    assert(s@ =~= buffer@.skip(cursor as int));
    if s.len() == 0 {
        return Err(FormatError::TruncatedFile);
    }
    let op = s[0];
    if op == 0xFF {
        Ok((Record::EndOfFile, cursor + 1))
    } else if op == 0xFE {
        if s.len() < 2 {
            return Err(FormatError::TruncatedFile);
        }
        if s[1] != 0 {
            return Err(FormatError::UnsupportedFeature);
        }
        Ok((Record::SelectDatabase(0), cursor + 2))
    } else if op == 0xFD {
        if s.len() < 5 {
            return Err(FormatError::TruncatedFile);
        }
        let secs: u32 = (s[4] as u32) * 0x1000000 + (s[3] as u32) * 0x10000 + (s[2] as u32) * 0x100
            + (s[1] as u32);
        assert(secs == le32_v(s@.skip(1)));
        let ms: u64 = (secs as u64) * 1000;
        let tail = slice_subrange(s, 5, s.len());
        assert(tail@ =~= s@.skip(5));
        let ((k, v), n) = match scan_kv(tail) {
            Ok(t) => t,
            Err(e) => {
                return Err(e);
            },
        };
        Ok((Record::Entry(Entry { key: k, value: v, expire_at_ms: Some(ms) }), cursor + 5 + n))
    } else if op == 0xFC {
        if s.len() < 9 {
            return Err(FormatError::TruncatedFile);
        }
        let ms: u64 = (s[8] as u64) * 0x100000000000000 + (s[7] as u64) * 0x1000000000000 + (
        s[6] as u64) * 0x10000000000 + (s[5] as u64) * 0x100000000 + (s[4] as u64) * 0x1000000 + (
        s[3] as u64) * 0x10000 + (s[2] as u64) * 0x100 + (s[1] as u64);
        assert(ms == le64_v(s@.skip(1)));
        let tail = slice_subrange(s, 9, s.len());
        assert(tail@ =~= s@.skip(9));
        let ((k, v), n) = match scan_kv(tail) {
            Ok(t) => t,
            Err(e) => {
                return Err(e);
            },
        };
        Ok((Record::Entry(Entry { key: k, value: v, expire_at_ms: Some(ms) }), cursor + 9 + n))
    } else if op == 0xFB {
        let body = slice_subrange(s, 1, s.len());
        assert(body@ =~= s@.skip(1));
        let (c1, h1, l1) = match decode_control(body) {
            Ok(t) => t,
            Err(e) => {
                return Err(e);
            },
        };
        if matches!(c1, EncodingClass::Special) {
            return Err(FormatError::UnsupportedEncoding);
        }
        let body2 = slice_subrange(s, 1 + h1, s.len());
        assert(body2@ =~= s@.skip(1 + h1 as int));
        let (c2, h2, l2) = match decode_control(body2) {
            Ok(t) => t,
            Err(e) => {
                return Err(e);
            },
        };
        if matches!(c2, EncodingClass::Special) {
            return Err(FormatError::UnsupportedEncoding);
        }
        Ok((Record::ResizeHint(l1, l2), cursor + 1 + h1 + h2))
    } else if op == 0xFA {
        let tail = slice_subrange(s, 1, s.len());
        assert(tail@ =~= s@.skip(1));
        let ((k, v), n) = match scan_kv(tail) {
            Ok(t) => t,
            Err(e) => {
                return Err(e);
            },
        };
        Ok((Record::AuxiliaryField(k, v), cursor + 1 + n))
    } else if op != 0 {
        Err(FormatError::UnsupportedValueType)
    } else {
        let tail = slice_subrange(s, 1, s.len());
        assert(tail@ =~= s@.skip(1));
        let ((k, v), n) = match scan_kv(tail) {
            Ok(t) => t,
            Err(e) => {
                return Err(e);
            },
        };
        Ok((Record::Entry(Entry { key: k, value: v, expire_at_ms: None }), cursor + 1 + n))
    }
}

} // verus!
