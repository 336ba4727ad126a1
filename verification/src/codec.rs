//! The binary record codec.
//!
//! A record is laid out as: the two 32-bit counters in little-endian order,
//! then each text field as a 32-bit little-endian byte-length prefix followed
//! by the field's UTF-8 bytes. [`spec_encode`] is the layout's definition;
//! [`encode`] and [`decode`] are proved against it.
//!
//! Decoding is tolerant: it reads a prefix of the buffer and ignores trailing
//! bytes, and a buffer that does not hold a well-formed encoding (for
//! example, freshly zero-initialized storage shorter than a full record)
//! decodes to the zero-valued record instead of failing.

use vstd::prelude::*;
use vstd::bytes::{spec_u32_to_le_bytes, spec_u32_from_le_bytes, lemma_auto_spec_u32_to_from_le_bytes, u32_from_le_bytes, u32_to_le_bytes};
use vstd::slice::{slice_subrange, slice_to_vec};
use vstd::utf8::{encode_utf8, decode_utf8, valid_utf8, encode_utf8_valid_utf8, encode_utf8_decode_utf8, decode_utf8_encode_utf8};
use crate::record::{CandidateAccount, RecordModel, wf_record, zero_record};
use crate::FailureKind;

verus! {

/// The layout of one text field: a 32-bit little-endian byte-length prefix,
/// then the field's UTF-8 bytes.
pub open spec fn spec_encode_text(s: Seq<char>) -> Seq<u8> {
    spec_u32_to_le_bytes(encode_utf8(s).len() as u32) + encode_utf8(s)
}

/// The full layout of a record: both counters, then the three text fields,
/// in the fixed field order.
pub open spec fn spec_encode(r: RecordModel) -> Seq<u8> {
    spec_u32_to_le_bytes(r.age) + spec_u32_to_le_bytes(r.experience) + spec_encode_text(
        r.first_name,
    ) + spec_encode_text(r.last_name) + spec_encode_text(r.qualification)
}

/// Reads a 32-bit little-endian integer at `off`; `None` when fewer than
/// four bytes remain.
pub open spec fn spec_parse_u32(b: Seq<u8>, off: int) -> Option<(u32, int)> {
    if 0 <= off && off + 4 <= b.len() {
        Some((spec_u32_from_le_bytes(b.subrange(off, off + 4)), off + 4))
    } else {
        None
    }
}

/// Reads one text field at `off`: a length prefix, then that many bytes,
/// which must be valid UTF-8.
pub open spec fn spec_parse_text(b: Seq<u8>, off: int) -> Option<(Seq<char>, int)> {
    match spec_parse_u32(b, off) {
        None => None,
        Some((n, off2)) => {
            if off2 + n <= b.len() {
                let bytes = b.subrange(off2, off2 + n);
                if valid_utf8(bytes) {
                    Some((decode_utf8(bytes), off2 + n))
                } else {
                    None
                }
            } else {
                None
            }
        },
    }
}

/// Reads a whole record from a prefix of the buffer; trailing bytes are
/// ignored. `None` when the prefix is not a well-formed encoding.
pub open spec fn spec_parse_record(b: Seq<u8>) -> Option<RecordModel> {
    match spec_parse_u32(b, 0) {
        None => None,
        Some((age, o1)) => match spec_parse_u32(b, o1) {
            None => None,
            Some((experience, o2)) => match spec_parse_text(b, o2) {
                None => None,
                Some((first_name, o3)) => match spec_parse_text(b, o3) {
                    None => None,
                    Some((last_name, o4)) => match spec_parse_text(b, o4) {
                        None => None,
                        Some((qualification, _)) => Some(
                            RecordModel { age, experience, first_name, last_name, qualification },
                        ),
                    },
                },
            },
        },
    }
}

/// The tolerant decoding: a well-formed prefix yields its record, anything
/// else yields the zero-valued record.
pub open spec fn spec_decode(b: Seq<u8>) -> RecordModel {
    match spec_parse_record(b) {
        Some(r) => r,
        None => zero_record(),
    }
}

/// Relies on std's `str::from_utf8`: it returns `Ok` exactly when the bytes
/// are valid UTF-8, and the returned slice borrows those same bytes.
#[verifier::external_body]
pub(crate) fn utf8_to_str(bytes: &[u8]) -> (r: Option<&str>)
    ensures
        r is Some <==> valid_utf8(bytes@),
        r matches Some(s) ==> encode_utf8(s@) == bytes@,
{
    std::str::from_utf8(bytes).ok()
}

/// Reads a 32-bit little-endian integer at `off`.
fn read_u32(buffer: &[u8], off: usize) -> (r: Option<(u32, usize)>)
    requires
        off <= buffer@.len(),
    ensures
        match r {
            Some(p) => spec_parse_u32(buffer@, off as int) == Some((p.0, p.1 as int)),
            None => spec_parse_u32(buffer@, off as int) is None,
        },
{
    if buffer.len() - off >= 4 {
        let x = u32_from_le_bytes(slice_subrange(buffer, off, off + 4));
        Some((x, off + 4))
    } else {
        None
    }
}

/// Reads one length-prefixed text field at `off`.
fn read_text(buffer: &[u8], off: usize) -> (r: Option<(String, usize)>)
    requires
        off <= buffer@.len(),
    ensures
        match r {
            Some(p) => spec_parse_text(buffer@, off as int) == Some((p.0@, p.1 as int))
                && encode_utf8(p.0@).len() <= u32::MAX,
            None => spec_parse_text(buffer@, off as int) is None,
        },
{
    match read_u32(buffer, off) {
        None => None,
        Some((n, off2)) => {
            let n_len = n as usize;
            if buffer.len() - off2 >= n_len {
                let bytes = slice_subrange(buffer, off2, off2 + n_len);
                match utf8_to_str(bytes) {
                    None => None,
                    Some(s) => {
                        proof {
                            encode_utf8_decode_utf8(s@);
                            decode_utf8_encode_utf8(bytes@);
                        }
                        Some((s.to_owned(), off2 + n_len))
                    },
                }
            } else {
                None
            }
        },
    }
}

/// Decodes the record stored in `buffer`.
///
/// Tolerant by design: a buffer whose prefix is not a well-formed encoding
/// (uninitialized storage included) decodes to the zero-valued record.
pub fn decode(buffer: &[u8]) -> (r: CandidateAccount)
    ensures
        r@ == spec_decode(buffer@),
        wf_record(r@),
{
    let parsed = decode_parsed(buffer);
    proof {
        lemma_decode_wf(buffer@);
        assert(parsed@ =~= spec_decode(buffer@));
    }
    parsed
}

/// The decoding work behind [`decode`], one failure exit per layout field.
fn decode_parsed(buffer: &[u8]) -> (r: CandidateAccount)
    ensures
        r@ =~= spec_decode(buffer@),
{
    match read_u32(buffer, 0) {
        None => CandidateAccount::zeroed(),
        Some((age, o1)) => match read_u32(buffer, o1) {
            None => CandidateAccount::zeroed(),
            Some((experience, o2)) => match read_text(buffer, o2) {
                None => CandidateAccount::zeroed(),
                Some((first_name, o3)) => match read_text(buffer, o3) {
                    None => CandidateAccount::zeroed(),
                    Some((last_name, o4)) => match read_text(buffer, o4) {
                        None => CandidateAccount::zeroed(),
                        Some((qualification, _)) => CandidateAccount {
                            age,
                            experience,
                            first_name,
                            last_name,
                            qualification,
                        },
                    },
                },
            },
        },
    }
}

/// Whatever the buffer holds, the decoded record is well formed: every text
/// field it can produce fits the 32-bit length prefix it was read from.
pub proof fn lemma_decode_wf(b: Seq<u8>)
    ensures
        wf_record(spec_decode(b)),
{
    reveal_with_fuel(encode_utf8, 2);
    match spec_parse_record(b) {
        None => {
            assert(encode_utf8(Seq::<char>::empty()).len() == 0);
        },
        Some(r) => {
            lemma_parse_text_wf(b, 8);
            match spec_parse_text(b, 8) {
                None => {},
                Some((_, o3)) => {
                    lemma_parse_text_wf(b, o3);
                    match spec_parse_text(b, o3) {
                        None => {},
                        Some((_, o4)) => {
                            lemma_parse_text_wf(b, o4);
                        },
                    }
                },
            }
        },
    }
}

/// A parsed text field's UTF-8 encoding is the bytes it was read from, so
/// its length fits the 32-bit prefix.
proof fn lemma_parse_text_wf(b: Seq<u8>, off: int)
    ensures
        spec_parse_text(b, off) matches Some(p) ==> encode_utf8(p.0).len() <= u32::MAX,
{
    match spec_parse_u32(b, off) {
        None => {},
        Some((n, off2)) => {
            if off2 + n <= b.len() {
                let bytes = b.subrange(off2, off2 + n);
                if valid_utf8(bytes) {
                    decode_utf8_encode_utf8(bytes);
                }
            }
        },
    }
}

/// Appends one text field's layout to `out`.
fn push_text(out: &mut Vec<u8>, s: &str)
    requires
        encode_utf8(s@).len() <= u32::MAX,
    ensures
        final(out)@ == old(out)@ + spec_encode_text(s@),
{
    let bytes = s.as_bytes();
    let n = bytes.len();
    let mut prefix = u32_to_le_bytes(n as u32);
    out.append(&mut prefix);
    let mut data = slice_to_vec(bytes);
    out.append(&mut data);
    proof {
        assert(out@ =~= old(out)@ + spec_encode_text(s@));
    }
}

/// Builds the full encoding of a record as a fresh byte vector.
fn encode_to_vec(record: &CandidateAccount) -> (out: Vec<u8>)
    requires
        wf_record(record@),
    ensures
        out@ == spec_encode(record@),
{
    let mut out = u32_to_le_bytes(record.age);
    let mut second = u32_to_le_bytes(record.experience);
    out.append(&mut second);
    push_text(&mut out, record.first_name.as_str());
    push_text(&mut out, record.last_name.as_str());
    push_text(&mut out, record.qualification.as_str());
    proof {
        assert(out@ =~= spec_encode(record@));
    }
    out
}

/// Encodes `record` into `buffer` starting at offset 0, leaving the buffer's
/// length and any bytes past the encoding unchanged.
///
/// The capacity guard: when the encoding is longer than the buffer, the
/// result is `CapacityExceeded` and not one byte of the buffer changes.
pub fn encode(record: &CandidateAccount, buffer: &mut Vec<u8>) -> (r: Result<(), FailureKind>)
    requires
        wf_record(record@),
    ensures
        final(buffer)@.len() == old(buffer)@.len(),
        spec_encode(record@).len() <= old(buffer)@.len() ==> {
            &&& r == Ok::<(), FailureKind>(())
            &&& final(buffer)@ == spec_encode(record@) + old(buffer)@.skip(
                spec_encode(record@).len() as int,
            )
        },
        spec_encode(record@).len() > old(buffer)@.len() ==> {
            &&& r == Err::<(), FailureKind>(FailureKind::CapacityExceeded)
            &&& final(buffer)@ == old(buffer)@
        },
{
    let out = encode_to_vec(record);
    let n = out.len();
    if n > buffer.len() {
        return Err(FailureKind::CapacityExceeded);
    }
    let mut i: usize = 0;
    while i < n
        invariant
            i <= n,
            n == out@.len(),
            n <= buffer@.len(),
            out@ == spec_encode(record@),
            buffer@.len() == old(buffer)@.len(),
            forall|j: int| 0 <= j < i ==> buffer@[j] == out@[j],
            forall|j: int| i <= j < buffer@.len() ==> buffer@[j] == old(buffer)@[j],
        decreases n - i,
    {
        let b = out[i];
        buffer[i] = b;
        i += 1;
    }
    proof {
        assert(buffer@ =~= spec_encode(record@) + old(buffer)@.skip(
            spec_encode(record@).len() as int,
        ));
    }
    Ok(())
}

/// Law: decoding inverts encoding. For every well-formed record, decoding a
/// buffer that starts with the record's encoding — whatever bytes follow it —
/// yields the record back.
pub proof fn lemma_round_trip(r: RecordModel, junk: Seq<u8>)
    requires
        wf_record(r),
    ensures
        spec_parse_record(spec_encode(r) + junk) == Some(r),
        spec_decode(spec_encode(r) + junk) == r,
{
    lemma_auto_spec_u32_to_from_le_bytes();
    let b = spec_encode(r) + junk;
    let f = encode_utf8(r.first_name);
    let l = encode_utf8(r.last_name);
    let q = encode_utf8(r.qualification);
    let o2: int = 8;
    let o3 = o2 + 4 + f.len();
    let o4 = o3 + 4 + l.len();
    let o5 = o4 + 4 + q.len();
    assert(b.len() == o5 + junk.len());
    assert(b.subrange(0, 4) =~= spec_u32_to_le_bytes(r.age));
    assert(b.subrange(4, 8) =~= spec_u32_to_le_bytes(r.experience));
    assert(b.subrange(o2, o2 + 4) =~= spec_u32_to_le_bytes(f.len() as u32));
    assert(b.subrange(o2 + 4, o3) =~= f);
    assert(b.subrange(o3, o3 + 4) =~= spec_u32_to_le_bytes(l.len() as u32));
    assert(b.subrange(o3 + 4, o4) =~= l);
    assert(b.subrange(o4, o4 + 4) =~= spec_u32_to_le_bytes(q.len() as u32));
    assert(b.subrange(o4 + 4, o5) =~= q);
    encode_utf8_valid_utf8(r.first_name);
    encode_utf8_valid_utf8(r.last_name);
    encode_utf8_valid_utf8(r.qualification);
    encode_utf8_decode_utf8(r.first_name);
    encode_utf8_decode_utf8(r.last_name);
    encode_utf8_decode_utf8(r.qualification);
    match spec_parse_record(b) {
        Some(p) => {
            assert(p =~= r);
        },
        None => {
            assert(false);
        },
    }
}

/// Law: encoding is deterministic. Encoding the same record succeeds into
/// any two buffers of the same capacity alike, and writes the same bytes:
/// the written prefixes agree byte for byte.
pub proof fn lemma_encode_deterministic(r: RecordModel, b1: Seq<u8>, b2: Seq<u8>)
    requires
        wf_record(r),
        b1.len() == b2.len(),
        spec_encode(r).len() <= b1.len(),
    ensures
        ({
            let n = spec_encode(r).len() as int;
            (spec_encode(r) + b1.skip(n)).subrange(0, n) == (spec_encode(r) + b2.skip(n)).subrange(
                0,
                n,
            )
        }),
{
    let n = spec_encode(r).len() as int;
    assert((spec_encode(r) + b1.skip(n)).subrange(0, n) =~= spec_encode(r));
    assert((spec_encode(r) + b2.skip(n)).subrange(0, n) =~= spec_encode(r));
}

} // verus!
