//! Whole-snapshot decoding and encoding.
//!
//! A snapshot is a 9-byte header (magic token, version token) followed by
//! records ([`crate::scanner`]) up to the end-of-stream opcode. The
//! decoder validates the header, scans records in a loop and collects the
//! live entries in file order; the encoder writes the same layout back,
//! choosing the shortest length class for every string. Any checksum
//! trailer after the end-of-stream opcode is left unverified on purpose.

use vstd::prelude::*;
use vstd::string::{StrSliceExecFns, StringSliceAdditionalSpecFns};
use vstd::utf8::encode_utf8;

use crate::encoding::{encode_len, spec_encode_len};
use crate::error::FormatError;
use crate::scalar::{ScalarModel, ScalarValue};
use crate::scanner::{scan_one, spec_scan_one, Entry, EntryModel, Record, RecordModel};

verus! {

/// The five magic bytes every snapshot starts with.
pub open spec fn spec_magic() -> Seq<u8> {
    seq![0x52u8, 0x45u8, 0x44u8, 0x49u8, 0x53u8]
}

/// The four version bytes the codec accepts, directly after the magic.
pub open spec fn spec_version() -> Seq<u8> {
    seq![0x30u8, 0x30u8, 0x30u8, 0x39u8]
}

/// True when `s` begins with the magic token.
pub open spec fn spec_magic_ok(s: Seq<u8>) -> bool {
    s.len() >= 5 && s.subrange(0, 5) == spec_magic()
}

/// True when bytes 5..9 of `s` are the expected version token.
pub open spec fn spec_version_ok(s: Seq<u8>) -> bool {
    s.len() >= 9 && s.subrange(5, 9) == spec_version()
}

/// The live entries of the record sequence at the head of `s`, in file
/// order, up to the end-of-stream opcode; selector, resize and auxiliary
/// records are consumed and dropped. Exhausting `s` before end-of-stream
/// is a truncation.
pub open spec fn spec_scan_records(s: Seq<u8>) -> Result<Seq<EntryModel>, FormatError>
    decreases s.len(),
{
    match spec_scan_one(s) {
        Err(e) => Err(e),
        Ok((rec, n)) => {
            if rec is EndOfFile {
                Ok(Seq::empty())
            } else if 1 <= n <= s.len() {
                match spec_scan_records(s.skip(n)) {
                    Err(e) => Err(e),
                    Ok(rest) => match rec {
                        RecordModel::Entry(e) => Ok(seq![e] + rest),
                        _ => Ok(rest),
                    },
                }
            } else {
                // A successful scan always consumes within bounds; this
                // arm only keeps the recursion well founded.
                Err(FormatError::TruncatedFile)
            }
        },
    }
}

/// What decoding the whole buffer yields: the header is checked first
/// (magic, then version), then the body is scanned for live entries.
pub open spec fn spec_decode(s: Seq<u8>) -> Result<Seq<EntryModel>, FormatError> {
    if !spec_magic_ok(s) {
        Err(FormatError::BadMagic)
    } else if !spec_version_ok(s) {
        Err(FormatError::VersionMismatch)
    } else {
        spec_scan_records(s.skip(9))
    }
}

/// The models of a sequence of decoded entries.
pub open spec fn entries_view(es: Seq<Entry>) -> Seq<EntryModel> {
    es.map_values(|e: Entry| e@)
}

/// Decodes a snapshot buffer into its live entries, in file order.
///
/// The result is exactly what [`spec_decode`] states: `BadMagic` or
/// `VersionMismatch` for a bad header, the entries up to the end-of-stream
/// opcode on success, `TruncatedFile` when the buffer runs out first, and
/// the scanner's error for any malformed record. The buffer is only
/// borrowed; entries own their data.
#[verifier::rlimit(100)]
pub fn decode(buffer: &[u8]) -> (r: Result<Vec<Entry>, FormatError>)
    ensures
        (match r {
            Ok(es) => spec_decode(buffer@) == Ok::<_, FormatError>(entries_view(es@)),
            Err(e) => spec_decode(buffer@) == Err::<Seq<EntryModel>, _>(e),
        }),
{
    if buffer.len() < 5 || buffer[0] != 0x52 || buffer[1] != 0x45 || buffer[2] != 0x44 || buffer[3]
        != 0x49 || buffer[4] != 0x53 {
        assert(!spec_magic_ok(buffer@)) by {
            if buffer@.len() >= 5 {
                assert(forall|i: int|
                    0 <= i < 5 ==> buffer@.subrange(0, 5)[i] == buffer@[i]);
            }
        }
        return Err(FormatError::BadMagic);
    }
    assert(spec_magic_ok(buffer@)) by {
        assert(buffer@.subrange(0, 5) =~= spec_magic());
    }
    if buffer.len() < 9 || buffer[5] != 0x30 || buffer[6] != 0x30 || buffer[7] != 0x30 || buffer[8]
        != 0x39 {
        assert(!spec_version_ok(buffer@)) by {
            if buffer@.len() >= 9 {
                assert(forall|i: int|
                    0 <= i < 4 ==> buffer@.subrange(5, 9)[i] == buffer@[i + 5]);
            }
        }
        return Err(FormatError::VersionMismatch);
    }
    assert(spec_version_ok(buffer@)) by {
        assert(buffer@.subrange(5, 9) =~= spec_version());
    }
    let ghost full = spec_scan_records(buffer@.skip(9));
    let mut entries: Vec<Entry> = Vec::new();
    let mut cursor: usize = 9;
    loop
        invariant
            9 <= cursor <= buffer@.len(),
            full == spec_decode(buffer@),
            (match spec_scan_records(buffer@.skip(cursor as int)) {
                Ok(rest) => full == Ok::<_, FormatError>(entries_view(entries@) + rest),
                Err(e) => full == Err::<Seq<EntryModel>, _>(e),
            }),
        decreases buffer@.len() - cursor,
    {
        let step = scan_one(buffer, cursor);
        match step {
            Err(e) => {
                return Err(e);
            },
            Ok((rec, nc)) => {
                assert(buffer@.skip(cursor as int).skip(nc - cursor) =~= buffer@.skip(nc as int));
                match rec {
                    Record::EndOfFile => {
                        assert(entries_view(entries@) + Seq::<EntryModel>::empty() =~= entries_view(
                            entries@,
                        ));
                        return Ok(entries);
                    },
                    Record::Entry(e) => {
                        let ghost before = entries@;
                        entries.push(e);
                        proof {
                            assert(entries_view(entries@) =~= entries_view(before) + seq![e@]);
                            if let Ok(rest) = spec_scan_records(buffer@.skip(nc as int)) {
                                assert((entries_view(before) + seq![e@]) + rest =~= entries_view(
                                    before,
                                ) + (seq![e@] + rest));
                            }
                        }
                        cursor = nc;
                    },
                    _ => {
                        cursor = nc;
                    },
                }
            },
        }
    }
}

/// The four little-endian bytes of a 32-bit value.
pub open spec fn le32_bytes(x: u32) -> Seq<u8> {
    seq![
        (x % 0x100) as u8,
        ((x / 0x100) % 0x100) as u8,
        ((x / 0x10000) % 0x100) as u8,
        ((x / 0x1000000) % 0x100) as u8,
    ]
}

/// The eight little-endian bytes of a 64-bit value.
pub open spec fn le64_bytes(x: u64) -> Seq<u8> {
    seq![
        (x % 0x100) as u8,
        ((x / 0x100) % 0x100) as u8,
        ((x / 0x10000) % 0x100) as u8,
        ((x / 0x1000000) % 0x100) as u8,
        ((x / 0x100000000) % 0x100) as u8,
        ((x / 0x10000000000) % 0x100) as u8,
        ((x / 0x1000000000000) % 0x100) as u8,
        ((x / 0x100000000000000) % 0x100) as u8,
    ]
}

/// The expiry prefix an entry is written with: the seconds opcode when the
/// timestamp is a whole number of seconds that fits 32 bits, the
/// milliseconds opcode otherwise, nothing when there is no expiry.
pub open spec fn spec_expiry_prefix(x: Option<u64>) -> Seq<u8> {
    match x {
        None => Seq::empty(),
        Some(ms) => if ms % 1000 == 0 && ms / 1000 < 0x100000000 {
            seq![0xFDu8] + le32_bytes((ms / 1000) as u32)
        } else {
            seq![0xFCu8] + le64_bytes(ms)
        },
    }
}

/// The characters of a text scalar (empty for the other shapes).
pub open spec fn text_of(v: ScalarModel) -> Seq<char> {
    match v {
        ScalarModel::Text(s) => s,
        _ => Seq::empty(),
    }
}

/// A string scalar encoding: the shortest length header, then the UTF-8
/// bytes.
pub open spec fn spec_encode_string(k: Seq<char>) -> Seq<u8> {
    spec_encode_len(encode_utf8(k).len() as int) + encode_utf8(k)
}

/// True when the encoder can write this entry: both scalars are text and
/// their UTF-8 byte lengths fit the widest (32-bit) length class.
pub open spec fn entry_encodable(e: EntryModel) -> bool {
    &&& e.key is Text
    &&& e.value is Text
    &&& encode_utf8(text_of(e.key)).len() < 0x100000000
    &&& encode_utf8(text_of(e.value)).len() < 0x100000000
}

/// True when every entry of `es` is encodable.
pub open spec fn entries_encodable(es: Seq<EntryModel>) -> bool {
    forall|i: int| 0 <= i < es.len() ==> entry_encodable(#[trigger] es[i])
}

/// One entry record. An expiry record is its opcode, the timestamp, the
/// key and the value; a plain entry is the string value type tag, the key
/// and the value.
pub open spec fn spec_encode_entry(e: EntryModel) -> Seq<u8> {
    (match e.expire_at_ms {
        None => seq![0u8],
        Some(_) => spec_expiry_prefix(e.expire_at_ms),
    }) + spec_encode_string(text_of(e.key)) + spec_encode_string(text_of(e.value))
}

/// The concatenated entry records of `es`, in order.
pub open spec fn spec_encode_body(es: Seq<EntryModel>) -> Seq<u8>
    decreases es.len(),
{
    if es.len() == 0 {
        Seq::empty()
    } else {
        spec_encode_entry(es[0]) + spec_encode_body(es.drop_first())
    }
}

/// How many entries of `es` carry an expiry.
pub open spec fn count_with_expiry(es: Seq<EntryModel>) -> int
    decreases es.len(),
{
    if es.len() == 0 {
        0int
    } else {
        (if es[0].expire_at_ms is Some {
            1int
        } else {
            0int
        }) + count_with_expiry(es.drop_first())
    }
}

/// The advisory resize record the encoder writes: total entry count and
/// expiring entry count, each as a length encoding.
pub open spec fn spec_resize_hint(total: int, expiring: int) -> Seq<u8> {
    seq![0xFBu8] + spec_encode_len(total) + spec_encode_len(expiring)
}

/// The full snapshot encoding of `es`: header, one record per entry, a
/// resize hint with the true counts, then the end-of-stream opcode.
pub open spec fn spec_encode(es: Seq<EntryModel>) -> Seq<u8> {
    spec_magic() + spec_version() + spec_encode_body(es) + spec_resize_hint(
        es.len() as int,
        count_with_expiry(es),
    ) + seq![0xFFu8]
}

/// Appending an entry appends its record and counts its expiry.
pub proof fn lemma_encode_body_push(es: Seq<EntryModel>, x: EntryModel)
    ensures
        spec_encode_body(es.push(x)) == spec_encode_body(es) + spec_encode_entry(x),
        count_with_expiry(es.push(x)) == count_with_expiry(es) + (if x.expire_at_ms is Some {
            1int
        } else {
            0int
        }),
    decreases es.len(),
{
    if es.len() == 0 {
        assert(es.push(x)[0] == x);
        assert(es.push(x).drop_first() =~= Seq::<EntryModel>::empty());
        assert(spec_encode_body(Seq::<EntryModel>::empty()) == Seq::<u8>::empty());
        assert(count_with_expiry(Seq::<EntryModel>::empty()) == 0);
        assert(es =~= Seq::<EntryModel>::empty());
        assert(spec_encode_entry(x) + Seq::<u8>::empty() =~= spec_encode_entry(x));
        assert(Seq::<u8>::empty() + spec_encode_entry(x) =~= spec_encode_entry(x));
    } else {
        assert(es.push(x)[0] == es[0]);
        assert(es.push(x).drop_first() =~= es.drop_first().push(x));
        lemma_encode_body_push(es.drop_first(), x);
        assert(spec_encode_entry(es[0]) + (spec_encode_body(es.drop_first()) + spec_encode_entry(x))
            =~= (spec_encode_entry(es[0]) + spec_encode_body(es.drop_first()))
            + spec_encode_entry(x));
    }
}

/// Appends every byte of `bytes` to `out`.
fn push_bytes(out: &mut Vec<u8>, bytes: &[u8])
    ensures
        final(out)@ == old(out)@ + bytes@,
{
    let mut j: usize = 0;
    while j < bytes.len()
        invariant
            j <= bytes@.len(),
            out@ == old(out)@ + bytes@.take(j as int),
        decreases bytes@.len() - j,
    {
        out.push(bytes[j]);
        assert(out@ =~= old(out)@ + bytes@.take(j as int + 1));
        j = j + 1;
    }
    assert(out@ =~= old(out)@ + bytes@);
}

/// Appends the length header and UTF-8 bytes of `s` to `out`.
fn push_string(out: &mut Vec<u8>, s: &String)
    requires
        encode_utf8(s@).len() < 0x100000000,
    ensures
        final(out)@ == old(out)@ + spec_encode_string(s@),
{
    let bytes: &[u8] = s.as_str().as_bytes();
    assert(bytes@ == encode_utf8(s@));
    encode_len(bytes.len(), out);
    push_bytes(out, bytes);
}

/// Appends the expiry prefix for `x` to `out`.
fn push_expiry(out: &mut Vec<u8>, x: Option<u64>)
    ensures
        final(out)@ == old(out)@ + spec_expiry_prefix(x),
{
    match x {
        None => {},
        Some(ms) => {
            if ms % 1000 == 0 && ms / 1000 < 0x100000000 {
                let secs: u32 = (ms / 1000) as u32;
                out.push(0xFD);
                out.push((secs % 0x100) as u8);
                out.push(((secs / 0x100) % 0x100) as u8);
                out.push(((secs / 0x10000) % 0x100) as u8);
                out.push(((secs / 0x1000000) % 0x100) as u8);
                assert(out@ =~= old(out)@ + spec_expiry_prefix(x));
            } else {
                out.push(0xFC);
                out.push((ms % 0x100) as u8);
                out.push(((ms / 0x100) % 0x100) as u8);
                out.push(((ms / 0x10000) % 0x100) as u8);
                out.push(((ms / 0x1000000) % 0x100) as u8);
                out.push(((ms / 0x100000000) % 0x100) as u8);
                out.push(((ms / 0x10000000000) % 0x100) as u8);
                out.push(((ms / 0x1000000000000) % 0x100) as u8);
                out.push(((ms / 0x100000000000000) % 0x100) as u8);
                assert(out@ =~= old(out)@ + spec_expiry_prefix(x));
            }
        },
    }
}

/// Encodes the entries into a fresh snapshot buffer, exactly as
/// [`spec_encode`] states: header, one record per entry in the given
/// order (shortest length class for every string, seconds opcode for
/// whole-second expiries that fit 32 bits, milliseconds opcode
/// otherwise), a resize hint with the true counts, then end-of-stream.
///
/// The entry count and the byte length of each key and value must fit the
/// 32-bit length class; that is all the format itself can represent.
pub fn encode(entries: &Vec<Entry>) -> (r: Vec<u8>)
    requires
        entries_encodable(entries_view(entries@)),
        entries@.len() < 0x100000000,
    ensures
        r@ == spec_encode(entries_view(entries@)),
{
    let ghost m = entries_view(entries@);
    let mut out: Vec<u8> = Vec::new();
    out.push(0x52);
    out.push(0x45);
    out.push(0x44);
    out.push(0x49);
    out.push(0x53);
    out.push(0x30);
    out.push(0x30);
    out.push(0x30);
    out.push(0x39);
    assert(out@ =~= spec_magic() + spec_version());
    let mut n_exp: usize = 0;
    let mut i: usize = 0;
    while i < entries.len()
        invariant
            i <= entries@.len(),
            m == entries_view(entries@),
            entries_encodable(m),
            entries@.len() < 0x100000000,
            out@ == spec_magic() + spec_version() + spec_encode_body(m.take(i as int)),
            n_exp <= i,
            n_exp as int == count_with_expiry(m.take(i as int)),
        decreases entries@.len() - i,
    {
        let ghost prefix = out@;
        let e = &entries[i];
        assert(e@ == m[i as int]);
        if e.expire_at_ms.is_some() {
            push_expiry(&mut out, e.expire_at_ms);
        } else {
            out.push(0u8);
        }
        let key = match &e.key {
            ScalarValue::Text(s) => s,
            _ => unreached(),
        };
        push_string(&mut out, key);
        let value = match &e.value {
            ScalarValue::Text(s) => s,
            _ => unreached(),
        };
        push_string(&mut out, value);
        assert(out@ =~= prefix + spec_encode_entry(m[i as int]));
        proof {
            assert(m.take(i + 1) =~= m.take(i as int).push(m[i as int]));
            lemma_encode_body_push(m.take(i as int), m[i as int]);
            assert(out@ =~= spec_magic() + spec_version() + spec_encode_body(m.take(i + 1)));
        }
        if e.expire_at_ms.is_some() {
            n_exp = n_exp + 1;
        }
        i = i + 1;
    }
    assert(m.take(i as int) =~= m);
    out.push(0xFB);
    encode_len(entries.len(), &mut out);
    encode_len(n_exp, &mut out);
    out.push(0xFF);
    assert(out@ =~= spec_encode(m));
    out
}

} // verus!
