//! The codec's laws: the encoder is the exact left inverse of the
//! decoder, a bad header is always rejected, a file cut at a record
//! boundary is always a truncation, and both expiry opcodes normalize to
//! the same timestamp.

use vstd::prelude::*;
use vstd::utf8::{encode_utf8, encode_utf8_decode_utf8, encode_utf8_valid_utf8};

use crate::encoding::{lemma_decode_control_encode_len, spec_decode_control, spec_encode_len};
use crate::error::FormatError;
use crate::scalar::{le32_v, le64_v, spec_decode_scalar, ScalarModel};
use crate::scanner::{spec_scan_kv, spec_scan_one, EntryModel, RecordModel};
use crate::snapshot::{
    count_with_expiry, entries_encodable, entry_encodable, le32_bytes, le64_bytes, spec_decode,
    spec_encode, spec_encode_body, spec_encode_entry, spec_encode_string, spec_expiry_prefix,
    spec_magic, spec_magic_ok, spec_resize_hint, spec_scan_records, spec_version, spec_version_ok,
    text_of,
};

verus! {

/// Reading four little-endian bytes back gives the value they were
/// written from, whatever follows them.
proof fn lemma_le32_round_trip(x: u32, rest: Seq<u8>)
    ensures
        le32_v(le32_bytes(x) + rest) == x,
{
    let s = le32_bytes(x) + rest;
    assert(s[0] == (x % 0x100) as u8 && s[1] == ((x / 0x100) % 0x100) as u8 && s[2] == ((x
        / 0x10000) % 0x100) as u8 && s[3] == ((x / 0x1000000) % 0x100) as u8);
    assert(((x / 0x1000000) % 0x100) * 0x1000000 + ((x / 0x10000) % 0x100) * 0x10000 + ((x / 0x100)
        % 0x100) * 0x100 + (x % 0x100) == x) by (bit_vector);
}

/// Reading eight little-endian bytes back gives the value they were
/// written from, whatever follows them.
proof fn lemma_le64_round_trip(x: u64, rest: Seq<u8>)
    ensures
        le64_v(le64_bytes(x) + rest) == x,
{
    let s = le64_bytes(x) + rest;
    assert(s[0] == (x % 0x100) as u8 && s[1] == ((x / 0x100) % 0x100) as u8 && s[2] == ((x
        / 0x10000) % 0x100) as u8 && s[3] == ((x / 0x1000000) % 0x100) as u8 && s[4] == ((x
        / 0x100000000) % 0x100) as u8 && s[5] == ((x / 0x10000000000) % 0x100) as u8 && s[6] == ((x
        / 0x1000000000000) % 0x100) as u8 && s[7] == ((x / 0x100000000000000) % 0x100) as u8);
    assert(((x / 0x100000000000000) % 0x100) * 0x100000000000000 + ((x / 0x1000000000000) % 0x100)
        * 0x1000000000000 + ((x / 0x10000000000) % 0x100) * 0x10000000000 + ((x / 0x100000000)
        % 0x100) * 0x100000000 + ((x / 0x1000000) % 0x100) * 0x1000000 + ((x / 0x10000) % 0x100)
        * 0x10000 + ((x / 0x100) % 0x100) * 0x100 + (x % 0x100) == x) by (bit_vector);
}

/// Decoding an encoded string scalar, whatever follows it, gives back
/// exactly its characters and consumes exactly its bytes.
#[verifier::rlimit(100)]
proof fn lemma_decode_encoded_string(k: Seq<char>, rest: Seq<u8>)
    requires
        encode_utf8(k).len() < 0x100000000,
    ensures
        spec_decode_scalar(spec_encode_string(k) + rest) == Ok::<_, FormatError>(
            (ScalarModel::Text(k), spec_encode_string(k).len() as int),
        ),
        spec_encode_string(k).len() >= 1,
{
    reveal(spec_decode_scalar);
    let b = encode_utf8(k);
    let s = spec_encode_string(k) + rest;
    assert(s =~= spec_encode_len(b.len() as int) + (b + rest));
    lemma_decode_control_encode_len(b.len() as int, b + rest);
    let h = spec_encode_len(b.len() as int).len() as int;
    let l = b.len() as int;
    assert(s.subrange(h, h + l) =~= b);
    encode_utf8_valid_utf8(k);
    encode_utf8_decode_utf8(k);
}

/// Decoding an encoded key/value pair, whatever follows it, gives back
/// exactly the two strings and consumes exactly their bytes.
#[verifier::rlimit(100)]
proof fn lemma_scan_kv_encoded(k: Seq<char>, v: Seq<char>, rest: Seq<u8>)
    requires
        encode_utf8(k).len() < 0x100000000,
        encode_utf8(v).len() < 0x100000000,
    ensures
        spec_scan_kv(spec_encode_string(k) + spec_encode_string(v) + rest) == Ok::<_, FormatError>(
            (
                (ScalarModel::Text(k), ScalarModel::Text(v)),
                spec_encode_string(k).len() as int + spec_encode_string(v).len() as int,
            ),
        ),
{
    let ek = spec_encode_string(k);
    let ev = spec_encode_string(v);
    let s = ek + ev + rest;
    assert(s =~= ek + (ev + rest));
    lemma_decode_encoded_string(k, ev + rest);
    assert(s.skip(ek.len() as int) =~= ev + rest);
    lemma_decode_encoded_string(v, rest);
}

/// Scanning an encoded resize hint, whatever follows it, gives back its
/// two sizes and consumes exactly its bytes.
#[verifier::rlimit(100)]
proof fn lemma_scan_resize_hint(total: int, expiring: int, rest: Seq<u8>)
    requires
        0 <= total < 0x100000000,
        0 <= expiring < 0x100000000,
    ensures
        spec_scan_one(spec_resize_hint(total, expiring) + rest) == Ok::<_, FormatError>(
            (RecordModel::ResizeHint(total, expiring), spec_resize_hint(total, expiring).len() as int),
        ),
{
    reveal(spec_scan_one);
    let et = spec_encode_len(total);
    let ee = spec_encode_len(expiring);
    let s = spec_resize_hint(total, expiring) + rest;
    assert(s[0] == 0xFBu8);
    assert(s.skip(1) =~= et + (ee + rest));
    lemma_decode_control_encode_len(total, ee + rest);
    assert(s.skip(1 + et.len() as int) =~= ee + rest);
    lemma_decode_control_encode_len(expiring, rest);
}

/// Scanning a seconds-expiry record: the timestamp is read little-endian
/// and normalized to milliseconds, then a key and a value follow.
#[verifier::rlimit(100)]
proof fn lemma_scan_record_expiry_secs_raw(secs: u32, body: Seq<u8>)
    ensures
        spec_scan_one(seq![0xFDu8] + le32_bytes(secs) + body) == (match spec_scan_kv(body) {
            Ok(((k, v), n)) => Ok::<_, FormatError>(
                (
                    RecordModel::Entry(
                        EntryModel {
                            key: k,
                            value: v,
                            expire_at_ms: Some(((secs as int) * 1000) as u64),
                        },
                    ),
                    5 + n,
                ),
            ),
            Err(e) => Err::<(RecordModel, int), _>(e),
        }),
{
    reveal(spec_scan_one);
    let s = seq![0xFDu8] + le32_bytes(secs) + body;
    assert(s =~= seq![0xFDu8] + (le32_bytes(secs) + body));
    assert(s[0] == 0xFDu8);
    assert(s.skip(1) =~= le32_bytes(secs) + body);
    lemma_le32_round_trip(secs, body);
    assert(s.skip(5) =~= body);
}

/// Scanning a milliseconds-expiry record: the timestamp is read
/// little-endian and kept as is, then a key and a value follow.
#[verifier::rlimit(100)]
proof fn lemma_scan_record_expiry_ms_raw(ms: u64, body: Seq<u8>)
    ensures
        spec_scan_one(seq![0xFCu8] + le64_bytes(ms) + body) == (match spec_scan_kv(body) {
            Ok(((k, v), n)) => Ok::<_, FormatError>(
                (RecordModel::Entry(EntryModel { key: k, value: v, expire_at_ms: Some(ms) }), 9 + n),
            ),
            Err(e) => Err::<(RecordModel, int), _>(e),
        }),
{
    reveal(spec_scan_one);
    let s = seq![0xFCu8] + le64_bytes(ms) + body;
    assert(s =~= seq![0xFCu8] + (le64_bytes(ms) + body));
    assert(s[0] == 0xFCu8);
    assert(s.skip(1) =~= le64_bytes(ms) + body);
    lemma_le64_round_trip(ms, body);
    assert(s.skip(9) =~= body);
}

/// Scanning an encoded no-expiry entry record.
#[verifier::rlimit(100)]
proof fn lemma_scan_entry_no_expiry(e: EntryModel, rest: Seq<u8>)
    requires
        entry_encodable(e),
        e.expire_at_ms is None,
    ensures
        spec_scan_one(spec_encode_entry(e) + rest) == Ok::<_, FormatError>(
            (RecordModel::Entry(e), spec_encode_entry(e).len() as int),
        ),
{
    let k = text_of(e.key);
    let v = text_of(e.value);
    let ek = spec_encode_string(k);
    let ev = spec_encode_string(v);
    let s = spec_encode_entry(e) + rest;
    assert(e.key == ScalarModel::Text(k) && e.value == ScalarModel::Text(v));
    reveal(spec_scan_one);
    assert(s =~= seq![0u8] + (ek + ev + rest));
    assert(s[0] == 0u8);
    assert(s.skip(1) =~= ek + ev + rest);
    lemma_scan_kv_encoded(k, v, rest);
}

/// Scanning an encoded entry record whose expiry is written with the
/// seconds opcode.
#[verifier::rlimit(100)]
proof fn lemma_scan_entry_expiry_secs(e: EntryModel, rest: Seq<u8>)
    requires
        entry_encodable(e),
        e.expire_at_ms matches Some(ms) && ms % 1000 == 0 && ms / 1000 < 0x100000000,
    ensures
        spec_scan_one(spec_encode_entry(e) + rest) == Ok::<_, FormatError>(
            (RecordModel::Entry(e), spec_encode_entry(e).len() as int),
        ),
{
    let k = text_of(e.key);
    let v = text_of(e.value);
    let ek = spec_encode_string(k);
    let ev = spec_encode_string(v);
    let s = spec_encode_entry(e) + rest;
    assert(e.key == ScalarModel::Text(k) && e.value == ScalarModel::Text(v));
    let ms = e.expire_at_ms->0;
    let secs = (ms / 1000) as u32;
    assert(s =~= seq![0xFDu8] + le32_bytes(secs) + (ek + ev + rest));
    lemma_scan_record_expiry_secs_raw(secs, ek + ev + rest);
    lemma_scan_kv_encoded(k, v, rest);
    assert(ek + ev + rest =~= spec_encode_string(k) + spec_encode_string(v) + rest);
    assert((ms / 1000) * 1000 + ms % 1000 == ms);
    assert(((secs as int) * 1000) as u64 == ms);
}

/// Scanning an encoded entry record whose expiry is written with the
/// milliseconds opcode.
#[verifier::rlimit(100)]
proof fn lemma_scan_entry_expiry_ms(e: EntryModel, rest: Seq<u8>)
    requires
        entry_encodable(e),
        e.expire_at_ms matches Some(ms) && !(ms % 1000 == 0 && ms / 1000 < 0x100000000),
    ensures
        spec_scan_one(spec_encode_entry(e) + rest) == Ok::<_, FormatError>(
            (RecordModel::Entry(e), spec_encode_entry(e).len() as int),
        ),
{
    let k = text_of(e.key);
    let v = text_of(e.value);
    let ek = spec_encode_string(k);
    let ev = spec_encode_string(v);
    let s = spec_encode_entry(e) + rest;
    assert(e.key == ScalarModel::Text(k) && e.value == ScalarModel::Text(v));
    let ms = e.expire_at_ms->0;
    assert(s =~= seq![0xFCu8] + le64_bytes(ms) + (ek + ev + rest));
    lemma_scan_record_expiry_ms_raw(ms, ek + ev + rest);
    lemma_scan_kv_encoded(k, v, rest);
    assert(ek + ev + rest =~= spec_encode_string(k) + spec_encode_string(v) + rest);
}

/// Scanning an encoded entry record, whatever follows it, gives back
/// exactly that entry and consumes exactly its bytes.
proof fn lemma_scan_one_entry(e: EntryModel, rest: Seq<u8>)
    requires
        entry_encodable(e),
    ensures
        spec_scan_one(spec_encode_entry(e) + rest) == Ok::<_, FormatError>(
            (RecordModel::Entry(e), spec_encode_entry(e).len() as int),
        ),
        spec_encode_entry(e).len() >= 1,
{
    match e.expire_at_ms {
        None => lemma_scan_entry_no_expiry(e, rest),
        Some(ms) => {
            if ms % 1000 == 0 && ms / 1000 < 0x100000000 {
                lemma_scan_entry_expiry_secs(e, rest);
            } else {
                lemma_scan_entry_expiry_ms(e, rest);
            }
        },
    }
}

/// A record that scans to an entry prepends that entry to whatever the
/// rest of the stream yields.
#[verifier::rlimit(100)]
proof fn lemma_scan_records_prepend(rb: Seq<u8>, e: EntryModel, tail: Seq<u8>)
    requires
        rb.len() >= 1,
        spec_scan_one(rb + tail) == Ok::<_, FormatError>((RecordModel::Entry(e), rb.len() as int)),
    ensures
        spec_scan_records(rb + tail) == (match spec_scan_records(tail) {
            Ok(r) => Ok::<_, FormatError>(seq![e] + r),
            Err(er) => Err::<Seq<EntryModel>, _>(er),
        }),
{
    assert((rb + tail).skip(rb.len() as int) =~= tail);
}

/// Scanning an encoded body followed by `tail` yields all its entries, in
/// order, in front of whatever `tail` yields.
#[verifier::rlimit(100)]
proof fn lemma_scan_body(es: Seq<EntryModel>, tail: Seq<u8>)
    requires
        entries_encodable(es),
    ensures
        spec_scan_records(spec_encode_body(es) + tail) == (match spec_scan_records(tail) {
            Ok(rest) => Ok::<_, FormatError>(es + rest),
            Err(e) => Err::<Seq<EntryModel>, _>(e),
        }),
    decreases es.len(),
{
    if es.len() == 0 {
        assert(spec_encode_body(es) + tail =~= tail);
        match spec_scan_records(tail) {
            Ok(rest) => {
                assert(es + rest =~= rest);
            },
            Err(_) => {},
        }
    } else {
        let e0 = es[0];
        let rest1 = es.drop_first();
        assert(entry_encodable(e0));
        assert(entries_encodable(rest1)) by {
            assert forall|i: int| 0 <= i < rest1.len() implies entry_encodable(
                #[trigger] rest1[i],
            ) by {
                assert(rest1[i] == es[i + 1]);
            }
        }
        let eb = spec_encode_entry(e0);
        let s = spec_encode_body(es) + tail;
        assert(s =~= eb + (spec_encode_body(rest1) + tail));
        lemma_scan_one_entry(e0, spec_encode_body(rest1) + tail);
        lemma_scan_records_prepend(eb, e0, spec_encode_body(rest1) + tail);
        lemma_scan_body(rest1, tail);
        match spec_scan_records(tail) {
            Ok(r) => {
                assert(seq![e0] + (rest1 + r) =~= es + r);
            },
            Err(_) => {},
        }
    }
}

/// An expiry count never exceeds the entry count.
proof fn lemma_count_bounds(es: Seq<EntryModel>)
    ensures
        0 <= count_with_expiry(es) <= es.len(),
    decreases es.len(),
{
    if es.len() > 0 {
        lemma_count_bounds(es.drop_first());
    }
}

/// The round-trip law: decoding an encoded snapshot gives back exactly
/// the entries it was encoded from, in order, for every entry sequence
/// the format can represent (string keys and values whose byte lengths
/// and count fit the 32-bit length class), the auxiliary resize record
/// being consumed and dropped on the way.
#[verifier::rlimit(100)]
pub proof fn lemma_decode_encode_round_trip(es: Seq<EntryModel>)
    requires
        entries_encodable(es),
        es.len() < 0x100000000,
    ensures
        spec_decode(spec_encode(es)) == Ok::<_, FormatError>(es),
{
    let s = spec_encode(es);
    let hint = spec_resize_hint(es.len() as int, count_with_expiry(es));
    let tail = hint + seq![0xFFu8];
    lemma_count_bounds(es);
    assert(s.subrange(0, 5) =~= spec_magic());
    assert(s.subrange(5, 9) =~= spec_version());
    assert(s.skip(9) =~= spec_encode_body(es) + tail);
    lemma_scan_resize_hint(es.len() as int, count_with_expiry(es), seq![0xFFu8]);
    let nh = hint.len() as int;
    assert(nh >= 1);
    assert(tail.skip(nh) =~= seq![0xFFu8]);
    assert(spec_scan_one(seq![0xFFu8]) == Ok::<_, FormatError>((RecordModel::EndOfFile, 1int))) by {
        reveal(spec_scan_one);
    }
    assert(spec_scan_records(seq![0xFFu8]) == Ok::<_, FormatError>(Seq::<EntryModel>::empty()));
    assert(spec_scan_records(tail) == Ok::<_, FormatError>(Seq::<EntryModel>::empty()));
    lemma_scan_body(es, tail);
    assert(es + Seq::<EntryModel>::empty() =~= es);
}

/// The header-rejection law: a buffer that does not start with the magic
/// token decodes to `BadMagic`, and one with the magic token but the
/// wrong version token decodes to `VersionMismatch`, whatever follows.
pub proof fn lemma_header_rejection(s: Seq<u8>)
    ensures
        !spec_magic_ok(s) ==> spec_decode(s) == Err::<Seq<EntryModel>, _>(FormatError::BadMagic),
        spec_magic_ok(s) && !spec_version_ok(s) ==> spec_decode(s) == Err::<Seq<EntryModel>, _>(
            FormatError::VersionMismatch,
        ),
{
}

/// The truncation law: a well-formed file cut at any record boundary
/// before the end-of-stream opcode — after the header, after any number
/// of entry records, or after the resize hint — decodes to
/// `TruncatedFile`, never to a partial entry sequence.
#[verifier::rlimit(100)]
pub proof fn lemma_truncation_at_record_boundary(es: Seq<EntryModel>, k: int)
    requires
        entries_encodable(es),
        es.len() < 0x100000000,
        0 <= k <= es.len(),
    ensures
        spec_decode(spec_magic() + spec_version() + spec_encode_body(es.take(k))) == Err::<
            Seq<EntryModel>,
            _,
        >(FormatError::TruncatedFile),
        spec_decode(
            spec_magic() + spec_version() + spec_encode_body(es) + spec_resize_hint(
                es.len() as int,
                count_with_expiry(es),
            ),
        ) == Err::<Seq<EntryModel>, _>(FormatError::TruncatedFile),
{
    let tk = es.take(k);
    assert(entries_encodable(tk)) by {
        assert forall|i: int| 0 <= i < tk.len() implies entry_encodable(#[trigger] tk[i]) by {
            assert(tk[i] == es[i]);
        }
    }
    assert(spec_scan_records(Seq::<u8>::empty()) == Err::<Seq<EntryModel>, _>(
        FormatError::TruncatedFile,
    )) by {
        reveal(spec_scan_one);
    }
    let s1 = spec_magic() + spec_version() + spec_encode_body(tk);
    assert(s1.subrange(0, 5) =~= spec_magic());
    assert(s1.subrange(5, 9) =~= spec_version());
    assert(s1.skip(9) =~= spec_encode_body(tk) + Seq::<u8>::empty());
    lemma_scan_body(tk, Seq::<u8>::empty());
    let hint = spec_resize_hint(es.len() as int, count_with_expiry(es));
    lemma_count_bounds(es);
    lemma_scan_resize_hint(es.len() as int, count_with_expiry(es), Seq::<u8>::empty());
    assert(hint + Seq::<u8>::empty() =~= hint);
    let nh = hint.len() as int;
    assert(nh >= 1);
    assert(hint.skip(nh) =~= Seq::<u8>::empty());
    assert(spec_scan_records(hint) == Err::<Seq<EntryModel>, _>(FormatError::TruncatedFile));
    let s2 = spec_magic() + spec_version() + spec_encode_body(es) + hint;
    assert(s2.subrange(0, 5) =~= spec_magic());
    assert(s2.subrange(5, 9) =~= spec_version());
    assert(s2.skip(9) =~= spec_encode_body(es) + hint);
    lemma_scan_body(es, hint);
}

/// The expiry-normalization law: a record written with the milliseconds
/// opcode for a whole-second instant scans to exactly the same entry as
/// the seconds-opcode record of that instant (the seconds value times one
/// thousand), fails alike, and consumes four more bytes (its wider
/// timestamp).
#[verifier::rlimit(100)]
pub proof fn lemma_expiry_normalization(secs: u32, body: Seq<u8>)
    ensures
        spec_scan_one(seq![0xFCu8] + le64_bytes(((secs as int) * 1000) as u64) + body) == (
        match spec_scan_one(seq![0xFDu8] + le32_bytes(secs) + body) {
            Ok((r, n)) => Ok::<_, FormatError>((r, n + 4)),
            Err(e) => Err::<(RecordModel, int), _>(e),
        }),
{
    let ms: u64 = ((secs as int) * 1000) as u64;
    lemma_scan_record_expiry_secs_raw(secs, body);
    lemma_scan_record_expiry_ms_raw(ms, body);
}

} // verus!
