//! The index's byte format: a fixed, structure-preserving encoding of the
//! file and reference records, with a proved decode-of-encode round trip.
//!
//! Integers are eight little-endian bytes, booleans one byte, text a byte
//! count followed by the UTF-8 bytes.

use vstd::prelude::*;
use vstd::utf8::*;

use crate::file::{File, FileModel};
use crate::location::{LocModel, Location};
use crate::reference::{Reference, ReferenceModel};
use crate::text::string_from_utf8;
use vstd::seq_lib::*;

verus! {

/// A 64-bit integer as eight little-endian bytes.
pub open spec fn enc_u64(v: u64) -> Seq<u8> {
    seq![
        (v & 0xff) as u8,
        ((v >> 8) & 0xff) as u8,
        ((v >> 16) & 0xff) as u8,
        ((v >> 24) & 0xff) as u8,
        ((v >> 32) & 0xff) as u8,
        ((v >> 40) & 0xff) as u8,
        ((v >> 48) & 0xff) as u8,
        ((v >> 56) & 0xff) as u8,
    ]
}

/// The integer held by eight little-endian bytes at `i`.
#[verifier::opaque]
pub open spec fn dec_u64_at(b: Seq<u8>, i: int) -> u64 {
    (b[i] as u64) | ((b[i + 1] as u64) << 8) | ((b[i + 2] as u64) << 16) | ((b[i + 3] as u64)
        << 24) | ((b[i + 4] as u64) << 32) | ((b[i + 5] as u64) << 40) | ((b[i + 6] as u64) << 48)
        | ((b[i + 7] as u64) << 56)
}

/// Reading a 64-bit integer: eight bytes, or nothing near the end.
pub open spec fn sdec_u64(b: Seq<u8>, i: int) -> Option<(u64, int)> {
    if 0 <= i && i + 8 <= b.len() {
        Some((dec_u64_at(b, i), i + 8))
    } else {
        None
    }
}

/// A boolean as one byte.
pub open spec fn enc_bool(v: bool) -> Seq<u8> {
    seq![if v { 1u8 } else { 0u8 }]
}

/// Reading a boolean: one byte that must be zero or one.
pub open spec fn sdec_bool(b: Seq<u8>, i: int) -> Option<(bool, int)> {
    if 0 <= i && i < b.len() {
        if b[i] == 1 {
            Some((true, i + 1))
        } else if b[i] == 0 {
            Some((false, i + 1))
        } else {
            None
        }
    } else {
        None
    }
}

/// Whether the text's UTF-8 form fits the byte-count field.
pub open spec fn str_encodable(s: Seq<char>) -> bool {
    encode_utf8(s).len() <= u64::MAX
}

/// Text as its UTF-8 byte count followed by its UTF-8 bytes.
pub open spec fn enc_str(s: Seq<char>) -> Seq<u8> {
    enc_u64(encode_utf8(s).len() as u64) + encode_utf8(s)
}

/// Reading text: a byte count, then that many bytes of valid UTF-8.
pub open spec fn sdec_str(b: Seq<u8>, i: int) -> Option<(Seq<char>, int)> {
    match sdec_u64(b, i) {
        None => None,
        Some((len, j)) => if j + len <= b.len() {
            if valid_utf8(b.subrange(j, j + len)) {
                Some((decode_utf8(b.subrange(j, j + len)), j + len))
            } else {
                None
            }
        } else {
            None
        },
    }
}

/// Whether a span's counters are within their stored widths.
pub open spec fn loc_encodable(l: LocModel) -> bool {
    &&& 0 <= l.line <= u32::MAX
    &&& i64::MIN <= l.start <= i64::MAX
    &&& i64::MIN <= l.end <= i64::MAX
}

/// A span as its flag and its three counters.
pub open spec fn enc_location(l: LocModel) -> Seq<u8> {
    enc_bool(l.in_range) + (enc_u64((l.line as u32) as u64) + (enc_u64(
        (l.start as i64) as u64,
    ) + enc_u64((l.end as i64) as u64)))
}

/// Reading a span. The line counter must fit its 32 bits; the offsets are
/// read back as signed values.
pub open spec fn sdec_location(b: Seq<u8>, i: int) -> Option<(LocModel, int)> {
    match sdec_bool(b, i) {
        None => None,
        Some((in_range, j)) => match sdec_u64(b, j) {
            None => None,
            Some((line, j2)) => if line > u32::MAX as u64 {
                None
            } else {
                match sdec_u64(b, j2) {
                    None => None,
                    Some((start, j3)) => match sdec_u64(b, j3) {
                        None => None,
                        Some((end, j4)) => Some(
                            (
                                LocModel {
                                    in_range,
                                    line: line as int,
                                    start: (start as i64) as int,
                                    end: (end as i64) as int,
                                },
                                j4,
                            ),
                        ),
                    },
                }
            },
        },
    }
}

/// Whether a reference record fits the format's count and counter fields.
pub open spec fn reference_encodable(r: ReferenceModel) -> bool {
    str_encodable(r.path) && str_encodable(r.header) && loc_encodable(r.header_location)
}

/// A reference record: path, linked title, span, persistence flag.
pub open spec fn enc_reference(r: ReferenceModel) -> Seq<u8> {
    enc_str(r.path) + (enc_str(r.header) + (enc_location(r.header_location) + enc_bool(
        r.persisted,
    )))
}

/// Reading a reference record.
pub open spec fn sdec_reference(b: Seq<u8>, i: int) -> Option<(ReferenceModel, int)> {
    match sdec_str(b, i) {
        None => None,
        Some((path, j)) => match sdec_str(b, j) {
            None => None,
            Some((header, j2)) => match sdec_location(b, j2) {
                None => None,
                Some((header_location, j3)) => match sdec_bool(b, j3) {
                    None => None,
                    Some((persisted, j4)) => Some(
                        (ReferenceModel { path, header, header_location, persisted }, j4),
                    ),
                },
            },
        },
    }
}

/// A run of reference records, in order.
pub open spec fn enc_refs(rs: Seq<ReferenceModel>) -> Seq<u8>
    decreases rs.len(),
{
    if rs.len() == 0 {
        Seq::empty()
    } else {
        enc_refs(rs.drop_last()) + enc_reference(rs.last())
    }
}

/// Reading `n` reference records in a row.
pub open spec fn sdec_refs(b: Seq<u8>, i: int, n: nat) -> Option<(Seq<ReferenceModel>, int)>
    decreases n,
{
    if n == 0 {
        Some((Seq::empty(), i))
    } else {
        match sdec_refs(b, i, (n - 1) as nat) {
            None => None,
            Some((rs, j)) => match sdec_reference(b, j) {
                None => None,
                Some((r, j2)) => Some((rs.push(r), j2)),
            },
        }
    }
}

/// Whether a file record fits the format's count and counter fields.
pub open spec fn file_encodable(f: FileModel) -> bool {
    &&& str_encodable(f.path)
    &&& str_encodable(f.header)
    &&& loc_encodable(f.header_location)
    &&& f.references.len() <= u64::MAX
    &&& forall|k: int|
        0 <= k < f.references.len() ==> reference_encodable(#[trigger] f.references[k])
}

/// A file record: path, title, title span, reference count, the references
/// in order, persistence flag.
pub open spec fn enc_file(f: FileModel) -> Seq<u8> {
    enc_str(f.path) + (enc_str(f.header) + (enc_location(f.header_location) + (enc_u64(
        f.references.len() as u64,
    ) + (enc_refs(f.references) + enc_bool(f.persisted)))))
}

/// Reading a file record.
pub open spec fn sdec_file(b: Seq<u8>, i: int) -> Option<(FileModel, int)> {
    match sdec_str(b, i) {
        None => None,
        Some((path, j)) => match sdec_str(b, j) {
            None => None,
            Some((header, j2)) => match sdec_location(b, j2) {
                None => None,
                Some((header_location, j3)) => match sdec_u64(b, j3) {
                    None => None,
                    Some((n, j4)) => match sdec_refs(b, j4, n as nat) {
                        None => None,
                        Some((references, j5)) => match sdec_bool(b, j5) {
                            None => None,
                            Some((persisted, j6)) => Some(
                                (
                                    FileModel {
                                        path,
                                        header,
                                        header_location,
                                        references,
                                        persisted,
                                    },
                                    j6,
                                ),
                            ),
                        },
                    },
                },
            },
        },
    }
}

/// Reading a whole stored value as one file record, consuming every byte.
pub open spec fn sdec_file_full(b: Seq<u8>) -> Option<FileModel> {
    match sdec_file(b, 0) {
        None => None,
        Some((f, j)) => if j == b.len() {
            Some(f)
        } else {
            None
        },
    }
}

// ------------------------------------------------------------------
// Round-trip lemmas: decoding at a window that holds an encoding gives
// back exactly the encoded record.
// ------------------------------------------------------------------

/// A window that holds two encodings in a row splits into their windows.
proof fn lemma_window_split(b: Seq<u8>, i: int, w1: Seq<u8>, w2: Seq<u8>)
    requires
        0 <= i,
        i + w1.len() + w2.len() <= b.len(),
        b.subrange(i, i + w1.len() + w2.len()) == w1 + w2,
    ensures
        b.subrange(i, i + w1.len()) == w1,
        b.subrange(i + w1.len(), i + w1.len() + w2.len()) == w2,
{
    assert(b.subrange(i, i + w1.len()) =~= w1) by {
        assert forall|k: int| 0 <= k < w1.len() implies b.subrange(i, i + w1.len())[k] == w1[k] by {
            assert((w1 + w2)[k] == w1[k]);
            assert(b.subrange(i, i + w1.len() + w2.len())[k] == b[i + k]);
        }
    }
    assert(b.subrange(i + w1.len(), i + w1.len() + w2.len()) =~= w2) by {
        assert forall|k: int| 0 <= k < w2.len() implies b.subrange(
            i + w1.len(),
            i + w1.len() + w2.len(),
        )[k] == w2[k] by {
            assert((w1 + w2)[w1.len() + k] == w2[k]);
            assert(b.subrange(i, i + w1.len() + w2.len())[w1.len() + k] == b[i + w1.len() + k]);
        }
    }
}

/// Recombining the eight bytes of an integer gives the integer back.
proof fn lemma_u64_bits(v: u64)
    ensures
        ((v & 0xff) as u8 as u64) | (((v >> 8) & 0xff) as u8 as u64) << 8 | (((v >> 16)
            & 0xff) as u8 as u64) << 16 | (((v >> 24) & 0xff) as u8 as u64) << 24 | (((v >> 32)
            & 0xff) as u8 as u64) << 32 | (((v >> 40) & 0xff) as u8 as u64) << 40 | (((v >> 48)
            & 0xff) as u8 as u64) << 48 | (((v >> 56) & 0xff) as u8 as u64) << 56 == v,
{
    assert(((v & 0xff) as u8 as u64) | (((v >> 8) & 0xff) as u8 as u64) << 8 | (((v >> 16)
        & 0xff) as u8 as u64) << 16 | (((v >> 24) & 0xff) as u8 as u64) << 24 | (((v >> 32)
        & 0xff) as u8 as u64) << 32 | (((v >> 40) & 0xff) as u8 as u64) << 40 | (((v >> 48)
        & 0xff) as u8 as u64) << 48 | (((v >> 56) & 0xff) as u8 as u64) << 56 == v)
        by (bit_vector);
}

/// Decoding an integer at its window gives it back.
proof fn lemma_dec_enc_u64(b: Seq<u8>, i: int, v: u64)
    requires
        0 <= i,
        i + 8 <= b.len(),
        b.subrange(i, i + 8) == enc_u64(v),
    ensures
        sdec_u64(b, i) == Some((v, i + 8)),
{
    assert forall|k: int| 0 <= k < 8 implies b[i + k] == enc_u64(v)[k] by {
        assert(b.subrange(i, i + 8)[k] == b[i + k]);
    }
    lemma_u64_bits(v);
    reveal(dec_u64_at);
}

/// Decoding a boolean at its window gives it back.
proof fn lemma_dec_enc_bool(b: Seq<u8>, i: int, v: bool)
    requires
        0 <= i,
        i + 1 <= b.len(),
        b.subrange(i, i + 1) == enc_bool(v),
    ensures
        sdec_bool(b, i) == Some((v, i + 1)),
{
    assert(b.subrange(i, i + 1)[0] == b[i]);
}

/// Decoding text at its window gives it back.
proof fn lemma_dec_enc_str(b: Seq<u8>, i: int, s: Seq<char>)
    requires
        0 <= i,
        str_encodable(s),
        i + enc_str(s).len() <= b.len(),
        b.subrange(i, i + enc_str(s).len()) == enc_str(s),
    ensures
        sdec_str(b, i) == Some((s, i + enc_str(s).len())),
{
    broadcast use encode_utf8_valid_utf8, encode_utf8_decode_utf8;

    let u = encode_utf8(s);
    let len = u.len() as u64;
    lemma_window_split(b, i, enc_u64(len), u);
    lemma_dec_enc_u64(b, i, len);
    assert(b.subrange(i + 8, i + 8 + len) == u);
}

/// Casting an offset through its unsigned bytes gives it back.
proof fn lemma_i64_cast(v: i64)
    ensures
        ((v as u64) as i64) == v,
{
    assert(((v as u64) as i64) == v) by (bit_vector);
}

/// Decoding a span at its window gives it back.
proof fn lemma_dec_enc_location(b: Seq<u8>, i: int, l: LocModel)
    requires
        0 <= i,
        loc_encodable(l),
        i + enc_location(l).len() <= b.len(),
        b.subrange(i, i + enc_location(l).len()) == enc_location(l),
    ensures
        sdec_location(b, i) == Some((l, i + 25)),
{
    let w1 = enc_bool(l.in_range);
    let w2 = enc_u64((l.line as u32) as u64);
    let w3 = enc_u64((l.start as i64) as u64);
    let w4 = enc_u64((l.end as i64) as u64);
    assert(enc_location(l).len() == 25);
    lemma_window_split(b, i, w1, w2 + (w3 + w4));
    lemma_window_split(b, i + 1, w2, w3 + w4);
    lemma_window_split(b, i + 9, w3, w4);
    lemma_dec_enc_bool(b, i, l.in_range);
    lemma_dec_enc_u64(b, i + 1, (l.line as u32) as u64);
    lemma_dec_enc_u64(b, i + 9, (l.start as i64) as u64);
    lemma_dec_enc_u64(b, i + 17, (l.end as i64) as u64);
    lemma_i64_cast(l.start as i64);
    lemma_i64_cast(l.end as i64);
}

/// Decoding a reference record at its window gives it back.
proof fn lemma_dec_enc_reference(b: Seq<u8>, i: int, r: ReferenceModel)
    requires
        0 <= i,
        reference_encodable(r),
        i + enc_reference(r).len() <= b.len(),
        b.subrange(i, i + enc_reference(r).len()) == enc_reference(r),
    ensures
        sdec_reference(b, i) == Some((r, i + enc_reference(r).len())),
{
    let w1 = enc_str(r.path);
    let w2 = enc_str(r.header);
    let w3 = enc_location(r.header_location);
    let w4 = enc_bool(r.persisted);
    lemma_window_split(b, i, w1, w2 + (w3 + w4));
    lemma_window_split(b, i + w1.len(), w2, w3 + w4);
    lemma_window_split(b, i + w1.len() + w2.len(), w3, w4);
    lemma_dec_enc_str(b, i, r.path);
    lemma_dec_enc_str(b, i + w1.len(), r.header);
    lemma_dec_enc_location(b, i + w1.len() + w2.len(), r.header_location);
    lemma_dec_enc_bool(b, i + w1.len() + w2.len() + w3.len(), r.persisted);
}

/// Decoding a run of reference records at its window gives them back.
proof fn lemma_dec_enc_refs(b: Seq<u8>, i: int, rs: Seq<ReferenceModel>)
    requires
        0 <= i,
        forall|k: int| 0 <= k < rs.len() ==> reference_encodable(#[trigger] rs[k]),
        i + enc_refs(rs).len() <= b.len(),
        b.subrange(i, i + enc_refs(rs).len()) == enc_refs(rs),
    ensures
        sdec_refs(b, i, rs.len()) == Some((rs, i + enc_refs(rs).len())),
    decreases rs.len(),
{
    if rs.len() == 0 {
    } else {
        let front = rs.drop_last();
        let last = rs.last();
        lemma_window_split(b, i, enc_refs(front), enc_reference(last));
        lemma_dec_enc_refs(b, i, front);
        lemma_dec_enc_reference(b, i + enc_refs(front).len(), last);
        assert(front.push(last) =~= rs);
        assert(front.len() == (rs.len() - 1) as nat);
    }
}

/// The six windows of a file record's encoding, by their offsets.
proof fn lemma_file_windows(b: Seq<u8>, f: FileModel)
    requires
        b == enc_file(f),
    ensures
        b.len() == enc_file(f).len(),
        b.subrange(0, enc_str(f.path).len() as int) == enc_str(f.path),
        b.subrange(
            enc_str(f.path).len() as int,
            (enc_str(f.path).len() + enc_str(f.header).len()) as int,
        ) == enc_str(f.header),
        b.subrange(
            (enc_str(f.path).len() + enc_str(f.header).len()) as int,
            (enc_str(f.path).len() + enc_str(f.header).len() + 25) as int,
        ) == enc_location(f.header_location),
        b.subrange(
            (enc_str(f.path).len() + enc_str(f.header).len() + 25) as int,
            (enc_str(f.path).len() + enc_str(f.header).len() + 33) as int,
        ) == enc_u64(f.references.len() as u64),
        b.subrange(
            (enc_str(f.path).len() + enc_str(f.header).len() + 33) as int,
            (enc_str(f.path).len() + enc_str(f.header).len() + 33 + enc_refs(
                f.references,
            ).len()) as int,
        ) == enc_refs(f.references),
        b.subrange(
            (enc_str(f.path).len() + enc_str(f.header).len() + 33 + enc_refs(
                f.references,
            ).len()) as int,
            b.len() as int,
        ) == enc_bool(f.persisted),
{
    let w1 = enc_str(f.path);
    let w2 = enc_str(f.header);
    let w3 = enc_location(f.header_location);
    let w4 = enc_u64(f.references.len() as u64);
    let w5 = enc_refs(f.references);
    let w6 = enc_bool(f.persisted);
    let p1 = w1.len() as int;
    let p2 = p1 + w2.len();
    let p3 = p2 + w3.len();
    let p4 = p3 + w4.len();
    let p5 = p4 + w5.len();
    let p6 = p5 + w6.len();
    assert(w3.len() == 25);
    assert(b.len() == p6);
    assert(b.subrange(0, p6) =~= b);
    lemma_window_split(b, 0, w1, w2 + (w3 + (w4 + (w5 + w6))));
    lemma_window_split(b, p1, w2, w3 + (w4 + (w5 + w6)));
    lemma_window_split(b, p2, w3, w4 + (w5 + w6));
    lemma_window_split(b, p3, w4, w5 + w6);
    lemma_window_split(b, p4, w5, w6);
}

/// Decoding a whole stored value that holds a file record's encoding gives
/// the record back: the format round-trips.
pub proof fn lemma_dec_enc_file(b: Seq<u8>, f: FileModel)
    requires
        file_encodable(f),
        b == enc_file(f),
    ensures
        sdec_file_full(b) == Some(f),
{
    let p1 = enc_str(f.path).len() as int;
    let p2 = p1 + enc_str(f.header).len();
    let p3 = p2 + 25;
    let p4 = p3 + 8;
    let p5 = p4 + enc_refs(f.references).len();
    let p6 = b.len() as int;
    lemma_file_windows(b, f);
    assert(sdec_str(b, 0) == Some((f.path, p1))) by {
        lemma_dec_enc_str(b, 0, f.path);
    }
    assert(sdec_str(b, p1) == Some((f.header, p2))) by {
        lemma_dec_enc_str(b, p1, f.header);
    }
    assert(sdec_location(b, p2) == Some((f.header_location, p3))) by {
        lemma_dec_enc_location(b, p2, f.header_location);
    }
    assert(sdec_u64(b, p3) == Some((f.references.len() as u64, p4))) by {
        lemma_dec_enc_u64(b, p3, f.references.len() as u64);
    }
    assert(sdec_refs(b, p4, f.references.len()) == Some((f.references, p5))) by {
        lemma_dec_enc_refs(b, p4, f.references);
    }
    assert(sdec_bool(b, p5) == Some((f.persisted, p6))) by {
        lemma_dec_enc_bool(b, p5, f.persisted);
    }
    assert((f.references.len() as u64) as nat == f.references.len());
    assert(sdec_file(b, 0) == Some((f, p6)));
}

// ------------------------------------------------------------------
// Executable encoders.
// ------------------------------------------------------------------

/// Append the bytes of a slice.
fn push_bytes(buf: &mut Vec<u8>, s: &[u8])
    ensures
        final(buf)@ == old(buf)@ + s@,
{
    let mut i: usize = 0;
    while i < s.len()
        invariant
            i <= s@.len(),
            buf@ == old(buf)@ + s@.take(i as int),
        decreases s@.len() - i,
    {
        buf.push(*vstd::slice::slice_index_get(s, i));
        proof {
            assert(old(buf)@ + s@.take(i as int + 1) =~= (old(buf)@ + s@.take(i as int)).push(
                s@[i as int],
            ));
        }
        i = i + 1;
    }
    proof {
        assert(s@.take(s@.len() as int) =~= s@);
    }
}

/// Append a 64-bit integer as eight little-endian bytes.
fn push_u64(buf: &mut Vec<u8>, v: u64)
    ensures
        final(buf)@ == old(buf)@ + enc_u64(v),
{
    buf.push((v & 0xff) as u8);
    buf.push(((v >> 8) & 0xff) as u8);
    buf.push(((v >> 16) & 0xff) as u8);
    buf.push(((v >> 24) & 0xff) as u8);
    buf.push(((v >> 32) & 0xff) as u8);
    buf.push(((v >> 40) & 0xff) as u8);
    buf.push(((v >> 48) & 0xff) as u8);
    buf.push(((v >> 56) & 0xff) as u8);
    proof {
        assert(buf@ =~= old(buf)@ + enc_u64(v));
    }
}

/// Append a boolean as one byte.
fn push_bool(buf: &mut Vec<u8>, v: bool)
    ensures
        final(buf)@ == old(buf)@ + enc_bool(v),
{
    buf.push(if v { 1u8 } else { 0u8 });
    proof {
        assert(buf@ =~= old(buf)@ + enc_bool(v));
    }
}

/// Append text as its UTF-8 byte count and bytes.
fn push_str(buf: &mut Vec<u8>, s: &str)
    ensures
        final(buf)@ == old(buf)@ + enc_str(s@),
        str_encodable(s@),
{
    let bytes = s.as_bytes();
    push_u64(buf, bytes.len() as u64);
    push_bytes(buf, bytes);
    proof {
        assert(buf@ =~= old(buf)@ + enc_str(s@));
    }
}

/// Append a span.
fn push_location(buf: &mut Vec<u8>, l: &Location)
    ensures
        final(buf)@ == old(buf)@ + enc_location(l@),
        loc_encodable(l@),
{
    push_bool(buf, l.in_range);
    push_u64(buf, l.line_position as u64);
    push_u64(buf, l.start_char_position as u64);
    push_u64(buf, l.end_char_position as u64);
    proof {
        assert(buf@ =~= old(buf)@ + enc_location(l@));
    }
}

/// Append a reference record.
fn push_reference(buf: &mut Vec<u8>, r: &Reference)
    ensures
        final(buf)@ == old(buf)@ + enc_reference(r@),
        reference_encodable(r@),
{
    push_str(buf, r.path.as_str());
    push_str(buf, r.header.as_str());
    push_location(buf, &r.header_location);
    push_bool(buf, r.persisted);
    proof {
        assert(buf@ =~= old(buf)@ + enc_reference(r@));
    }
}

/// Encode a reference record as stored bytes.
pub fn encode_reference(r: &Reference) -> (out: Vec<u8>)
    ensures
        out@ == enc_reference(r@),
        reference_encodable(r@),
{
    let mut buf: Vec<u8> = Vec::new();
    push_reference(&mut buf, r);
    proof {
        assert(buf@ =~= enc_reference(r@));
    }
    buf
}

/// Encode a file record as stored bytes.
pub fn encode_file(f: &File) -> (out: Vec<u8>)
    ensures
        out@ == enc_file(f@),
        file_encodable(f@),
{
    let mut buf: Vec<u8> = Vec::new();
    push_str(&mut buf, f.path.as_str());
    push_str(&mut buf, f.header.as_str());
    push_location(&mut buf, &f.header_location);
    push_u64(&mut buf, f.references.len() as u64);
    let ghost head = buf@;
    let mut i: usize = 0;
    while i < f.references.len()
        invariant
            i <= f.references@.len(),
            buf@ == head + enc_refs(f@.references.take(i as int)),
            forall|k: int|
                0 <= k < i ==> reference_encodable(#[trigger] f@.references[k]),
        decreases f.references@.len() - i,
    {
        push_reference(&mut buf, &f.references[i]);
        proof {
            assert(f@.references[i as int] == f.references@[i as int]@);
            assert(f@.references.take(i as int + 1).drop_last() =~= f@.references.take(i as int));
            assert(f@.references.take(i as int + 1).last() == f@.references[i as int]);
        }
        i = i + 1;
    }
    push_bool(&mut buf, f.persisted);
    proof {
        assert(f@.references.take(f@.references.len() as int) =~= f@.references);
        assert(buf@ =~= enc_file(f@));
    }
    buf
}

// ------------------------------------------------------------------
// Executable decoders.
// ------------------------------------------------------------------

/// Read a 64-bit integer.
fn dec_u64(b: &Vec<u8>, i: usize) -> (r: Option<(u64, usize)>)
    ensures
        r matches Some((v, j)) ==> sdec_u64(b@, i as int) == Some((v, j as int)),
        r is None ==> sdec_u64(b@, i as int) is None,
{
    if b.len() >= 8 && i <= b.len() - 8 {
        let v = (b[i] as u64) | ((b[i + 1] as u64) << 8) | ((b[i + 2] as u64) << 16) | ((b[i
            + 3] as u64) << 24) | ((b[i + 4] as u64) << 32) | ((b[i + 5] as u64) << 40) | ((b[i
            + 6] as u64) << 48) | ((b[i + 7] as u64) << 56);
        proof {
            reveal(dec_u64_at);
        }
        Some((v, i + 8))
    } else {
        None
    }
}

/// Read a boolean.
fn dec_bool(b: &Vec<u8>, i: usize) -> (r: Option<(bool, usize)>)
    ensures
        r matches Some((v, j)) ==> sdec_bool(b@, i as int) == Some((v, j as int)),
        r is None ==> sdec_bool(b@, i as int) is None,
{
    if i < b.len() {
        if b[i] == 1 {
            Some((true, i + 1))
        } else if b[i] == 0 {
            Some((false, i + 1))
        } else {
            None
        }
    } else {
        None
    }
}

/// Read text.
fn dec_str(b: &Vec<u8>, i: usize) -> (r: Option<(String, usize)>)
    ensures
        r matches Some((s, j)) ==> sdec_str(b@, i as int) == Some((s@, j as int)),
        r is None ==> sdec_str(b@, i as int) is None,
{
    match dec_u64(b, i) {
        None => None,
        Some((len, j)) => {
            if len > (b.len() - j) as u64 {
                return None;
            }
            let m = j + (len as usize);
            let sl = vstd::slice::slice_subrange(b.as_slice(), j, m);
            match string_from_utf8(sl) {
                None => None,
                Some(s) => Some((s, m)),
            }
        },
    }
}

/// Read a span.
fn dec_location(b: &Vec<u8>, i: usize) -> (r: Option<(Location, usize)>)
    ensures
        r matches Some((l, j)) ==> sdec_location(b@, i as int) == Some((l@, j as int)),
        r is None ==> sdec_location(b@, i as int) is None,
{
    match dec_bool(b, i) {
        None => None,
        Some((in_range, j)) => match dec_u64(b, j) {
            None => None,
            Some((line, j2)) => {
                if line > u32::MAX as u64 {
                    return None;
                }
                match dec_u64(b, j2) {
                    None => None,
                    Some((start, j3)) => match dec_u64(b, j3) {
                        None => None,
                        Some((end, j4)) => Some(
                            (
                                Location {
                                    in_range,
                                    line_position: line as u32,
                                    start_char_position: start as i64,
                                    end_char_position: end as i64,
                                },
                                j4,
                            ),
                        ),
                    },
                }
            },
        },
    }
}

/// Read a reference record.
fn dec_reference(b: &Vec<u8>, i: usize) -> (r: Option<(Reference, usize)>)
    ensures
        r matches Some((x, j)) ==> sdec_reference(b@, i as int) == Some((x@, j as int)),
        r is None ==> sdec_reference(b@, i as int) is None,
{
    match dec_str(b, i) {
        None => None,
        Some((path, j)) => match dec_str(b, j) {
            None => None,
            Some((header, j2)) => match dec_location(b, j2) {
                None => None,
                Some((header_location, j3)) => match dec_bool(b, j3) {
                    None => None,
                    Some((persisted, j4)) => Some(
                        (Reference { path, header, header_location, persisted }, j4),
                    ),
                },
            },
        },
    }
}

/// Decode a whole stored value as one file record, or nothing if the bytes
/// do not hold exactly one well-formed record.
#[verifier::loop_isolation(false)]
pub fn decode_file(b: &Vec<u8>) -> (r: Option<File>)
    ensures
        r matches Some(f) ==> sdec_file_full(b@) == Some(f@),
        r is None ==> sdec_file_full(b@) is None,
{
    let path = match dec_str(b, 0) {
        None => {
            return None;
        },
        Some(x) => x,
    };
    let header = match dec_str(b, path.1) {
        None => {
            return None;
        },
        Some(x) => x,
    };
    let loc = match dec_location(b, header.1) {
        None => {
            return None;
        },
        Some(x) => x,
    };
    let count = match dec_u64(b, loc.1) {
        None => {
            return None;
        },
        Some(x) => x,
    };
    let n = count.0;
    let mut references: Vec<Reference> = Vec::new();
    let mut pos: usize = count.1;
    let mut k: u64 = 0;
    proof {
        assert(references@.map_values(|x: Reference| x@) =~= Seq::<ReferenceModel>::empty());
    }
    while k < n
        invariant
            k <= n,
            references@.len() == k,
            sdec_refs(b@, count.1 as int, k as nat) == Some(
                (references@.map_values(|x: Reference| x@), pos as int),
            ),
        decreases n - k,
    {
        let item = match dec_reference(b, pos) {
            None => {
                proof {
                    lemma_sdec_refs_fail(b@, count.1 as int, k as nat, n as nat, pos as int);
                }
                return None;
            },
            Some(x) => x,
        };
        let ghost olds = references@;
        references.push(item.0);
        proof {
            assert((k + 1) as nat != 0);
            assert(((k + 1) as nat - 1) as nat == k as nat);
            olds.lemma_push_map_commute(|x: Reference| x@, references@.last());
            assert(references@.map_values(|x: Reference| x@) =~= olds.map_values(
                |x: Reference| x@,
            ).push(item.0@));
        }
        pos = item.1;
        k = k + 1;
    }
    let persisted = match dec_bool(b, pos) {
        None => {
            return None;
        },
        Some(x) => x,
    };
    if persisted.1 != b.len() {
        return None;
    }
    Some(
        File {
            path: path.0,
            header: header.0,
            header_location: loc.0,
            references,
            persisted: persisted.0,
        },
    )
}

/// If `n` records were wanted, `k` were read, and the next read fails, the
/// whole run of `n` fails.
proof fn lemma_sdec_refs_fail(b: Seq<u8>, i: int, k: nat, n: nat, pos: int)
    requires
        k < n,
        sdec_refs(b, i, k) matches Some((rs, j)) && j == pos,
        sdec_reference(b, pos) is None,
    ensures
        sdec_refs(b, i, n) is None,
    decreases n,
{
    if n == k + 1 {
    } else {
        lemma_sdec_refs_fail(b, i, k, (n - 1) as nat, pos);
    }
}

} // verus!
