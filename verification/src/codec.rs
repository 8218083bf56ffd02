//! Lossless byte codec for the task data model.
//!
//! The encoding is a compact tagged binary layout: little-endian
//! fixed-width lengths and counts, UTF-8 text, one tag byte per enum
//! variant and per optional field. `deserialize_task` accepts a payload
//! only when it matches this schema exactly and never substitutes a
//! default value; `serialize_task` and the round-trip lemma state that
//! deserialization recovers every serialized value unchanged.
use crate::model::{AIInsights, DataError, InsightsView, Task, TaskPriority, TaskStatus, TaskView};
use vstd::prelude::*;
use vstd::slice::{slice_subrange, slice_to_vec};
use vstd::string::StringSliceAdditionalSpecFns;
use vstd::utf8::{
    decode_utf8, encode_utf8, encode_utf8_decode_utf8, encode_utf8_valid_utf8, valid_utf8,
};

verus! {

// ---------------------------------------------------------------------------
// Fixed-width little-endian integers
// ---------------------------------------------------------------------------
/// The eight little-endian bytes of `v`.
pub open spec fn u64_le(v: u64) -> Seq<u8> {
    seq![
        (v & 0xff) as u8,
        ((v >> 8) & 0xff) as u8,
        ((v >> 16) & 0xff) as u8,
        ((v >> 24) & 0xff) as u8,
        ((v >> 32) & 0xff) as u8,
        ((v >> 40) & 0xff) as u8,
        ((v >> 48) & 0xff) as u8,
        ((v >> 56) & 0xff) as u8,
    ]
}

/// The four little-endian bytes of `v`.
pub open spec fn u32_le(v: u32) -> Seq<u8> {
    seq![
        (v & 0xff) as u8,
        ((v >> 8) & 0xff) as u8,
        ((v >> 16) & 0xff) as u8,
        ((v >> 24) & 0xff) as u8,
    ]
}

/// The value whose little-endian bytes lead `b`.
pub open spec fn combine_u64(b: Seq<u8>) -> u64
    recommends
        b.len() >= 8,
{
    ((b[0] as u64) | ((b[1] as u64) << 8) | ((b[2] as u64) << 16) | ((b[3] as u64) << 24) | (
    (b[4] as u64) << 32) | ((b[5] as u64) << 40) | ((b[6] as u64) << 48) | ((b[7] as u64)
        << 56)) as u64
}

/// The value whose little-endian bytes lead `b`.
pub open spec fn combine_u32(b: Seq<u8>) -> u32
    recommends
        b.len() >= 4,
{
    ((b[0] as u32) | ((b[1] as u32) << 8) | ((b[2] as u32) << 16) | ((b[3] as u32) << 24)) as u32
}

/// Reads a `u64` from the front of `b`: eight little-endian bytes.
pub open spec fn spec_parse_u64(b: Seq<u8>) -> Option<(u64, int)> {
    if b.len() >= 8 {
        Some((combine_u64(b), 8int))
    } else {
        None
    }
}

/// Reads a `u32` from the front of `b`: four little-endian bytes.
pub open spec fn spec_parse_u32(b: Seq<u8>) -> Option<(u32, int)> {
    if b.len() >= 4 {
        Some((combine_u32(b), 4int))
    } else {
        None
    }
}

proof fn lemma_combine_u64_le(v: u64)
    ensures
        combine_u64(u64_le(v)) == v,
{
    assert((((v & 0xff) as u8 as u64) | ((((v >> 8) & 0xff) as u8 as u64) << 8) | ((((v >> 16)
        & 0xff) as u8 as u64) << 16) | ((((v >> 24) & 0xff) as u8 as u64) << 24) | ((((v >> 32)
        & 0xff) as u8 as u64) << 32) | ((((v >> 40) & 0xff) as u8 as u64) << 40) | ((((v >> 48)
        & 0xff) as u8 as u64) << 48) | ((((v >> 56) & 0xff) as u8 as u64) << 56)) == v)
        by (bit_vector);
}

proof fn lemma_combine_u32_le(v: u32)
    ensures
        combine_u32(u32_le(v)) == v,
{
    assert((((v & 0xff) as u8 as u32) | ((((v >> 8) & 0xff) as u8 as u32) << 8) | ((((v >> 16)
        & 0xff) as u8 as u32) << 16) | ((((v >> 24) & 0xff) as u8 as u32) << 24)) == v)
        by (bit_vector);
}

/// Parsing undoes serialization for `u64`, whatever bytes follow.
proof fn lemma_parse_ser_u64(v: u64, rest: Seq<u8>)
    ensures
        spec_parse_u64(u64_le(v) + rest) == Some((v, 8int)),
{
    let b = u64_le(v) + rest;
    assert(combine_u64(b) == combine_u64(u64_le(v)));
    lemma_combine_u64_le(v);
}

/// Parsing undoes serialization for `u32`, whatever bytes follow.
proof fn lemma_parse_ser_u32(v: u32, rest: Seq<u8>)
    ensures
        spec_parse_u32(u32_le(v) + rest) == Some((v, 4int)),
{
    let b = u32_le(v) + rest;
    assert(combine_u32(b) == combine_u32(u32_le(v)));
    lemma_combine_u32_le(v);
}

/// Appends the eight little-endian bytes of `v`.
fn ser_u64(out: &mut Vec<u8>, v: u64)
    ensures
        final(out)@ == old(out)@ + u64_le(v),
{
    out.push((v & 0xff) as u8);
    out.push(((v >> 8) & 0xff) as u8);
    out.push(((v >> 16) & 0xff) as u8);
    out.push(((v >> 24) & 0xff) as u8);
    out.push(((v >> 32) & 0xff) as u8);
    out.push(((v >> 40) & 0xff) as u8);
    out.push(((v >> 48) & 0xff) as u8);
    out.push(((v >> 56) & 0xff) as u8);
    proof {
        assert(out@ =~= old(out)@ + u64_le(v));
    }
}

/// Appends the four little-endian bytes of `v`.
fn ser_u32(out: &mut Vec<u8>, v: u32)
    ensures
        final(out)@ == old(out)@ + u32_le(v),
{
    out.push((v & 0xff) as u8);
    out.push(((v >> 8) & 0xff) as u8);
    out.push(((v >> 16) & 0xff) as u8);
    out.push(((v >> 24) & 0xff) as u8);
    proof {
        assert(out@ =~= old(out)@ + u32_le(v));
    }
}

/// Reads eight little-endian bytes at `pos`.
fn parse_u64(data: &[u8], pos: usize) -> (r: Option<(u64, usize)>)
    requires
        pos <= data@.len(),
    ensures
        r matches Some((v, end)) ==> spec_parse_u64(data@.skip(pos as int)) == Some(
            (v, end - pos),
        ) && pos <= end <= data@.len(),
        r is None ==> spec_parse_u64(data@.skip(pos as int)) is None,
{
    if data.len() - pos >= 8 {
        let b0 = *vstd::slice::slice_index_get(data, pos);
        let b1 = *vstd::slice::slice_index_get(data, pos + 1);
        let b2 = *vstd::slice::slice_index_get(data, pos + 2);
        let b3 = *vstd::slice::slice_index_get(data, pos + 3);
        let b4 = *vstd::slice::slice_index_get(data, pos + 4);
        let b5 = *vstd::slice::slice_index_get(data, pos + 5);
        let b6 = *vstd::slice::slice_index_get(data, pos + 6);
        let b7 = *vstd::slice::slice_index_get(data, pos + 7);
        let v: u64 = (b0 as u64) | ((b1 as u64) << 8) | ((b2 as u64) << 16) | ((b3 as u64) << 24)
            | ((b4 as u64) << 32) | ((b5 as u64) << 40) | ((b6 as u64) << 48) | ((b7 as u64)
            << 56);
        proof {
            let s = data@.skip(pos as int);
            assert(s[0] == b0 && s[1] == b1 && s[2] == b2 && s[3] == b3 && s[4] == b4 && s[5] == b5
                && s[6] == b6 && s[7] == b7);
        }
        Some((v, pos + 8))
    } else {
        None
    }
}

/// Reads four little-endian bytes at `pos`.
fn parse_u32(data: &[u8], pos: usize) -> (r: Option<(u32, usize)>)
    requires
        pos <= data@.len(),
    ensures
        r matches Some((v, end)) ==> spec_parse_u32(data@.skip(pos as int)) == Some(
            (v, end - pos),
        ) && pos <= end <= data@.len(),
        r is None ==> spec_parse_u32(data@.skip(pos as int)) is None,
{
    if data.len() - pos >= 4 {
        let b0 = *vstd::slice::slice_index_get(data, pos);
        let b1 = *vstd::slice::slice_index_get(data, pos + 1);
        let b2 = *vstd::slice::slice_index_get(data, pos + 2);
        let b3 = *vstd::slice::slice_index_get(data, pos + 3);
        let v: u32 = (b0 as u32) | ((b1 as u32) << 8) | ((b2 as u32) << 16) | ((b3 as u32) << 24);
        proof {
            let s = data@.skip(pos as int);
            assert(s[0] == b0 && s[1] == b1 && s[2] == b2 && s[3] == b3);
        }
        Some((v, pos + 4))
    } else {
        None
    }
}

// ---------------------------------------------------------------------------
// Text
// ---------------------------------------------------------------------------
/// A text's encoding: its UTF-8 byte length as a `u64`, then its UTF-8 bytes.
#[verifier::opaque]
pub open spec fn spec_ser_string(s: Seq<char>) -> Seq<u8> {
    u64_le(encode_utf8(s).len() as u64) + encode_utf8(s)
}

/// Reads a length-prefixed UTF-8 text from the front of `b`. Only valid
/// UTF-8 is accepted.
#[verifier::opaque]
pub open spec fn spec_parse_string(b: Seq<u8>) -> Option<(Seq<char>, int)> {
    match spec_parse_u64(b) {
        Some((n, _k)) => if n <= b.len() - 8 {
            let bytes = b.subrange(8, 8 + n as int);
            if valid_utf8(bytes) {
                Some((decode_utf8(bytes), 8 + n as int))
            } else {
                None
            }
        } else {
            None
        },
        None => None,
    }
}

/// The text's UTF-8 encoding is short enough for its length prefix.
pub open spec fn wf_text(s: Seq<char>) -> bool {
    encode_utf8(s).len() <= u64::MAX
}

/// Parsing undoes serialization for text, whatever bytes follow.
proof fn lemma_parse_ser_string(s: Seq<char>, rest: Seq<u8>)
    requires
        wf_text(s),
    ensures
        spec_parse_string(spec_ser_string(s) + rest) == Some((s, spec_ser_string(s).len() as int)),
{
    reveal(spec_ser_string);
    reveal(spec_parse_string);
    let enc = encode_utf8(s);
    let n = enc.len() as u64;
    let b = spec_ser_string(s) + rest;
    assert(b =~= u64_le(n) + (enc + rest));
    lemma_parse_ser_u64(n, enc + rest);
    assert(b.subrange(8, 8 + n as int) =~= enc);
    encode_utf8_valid_utf8(s);
    encode_utf8_decode_utf8(s);
}

/// Relies on std's `String::from_utf8`: it succeeds exactly on valid UTF-8
/// input and returns the string those bytes encode.
#[verifier::external_body]
fn string_from_utf8(bytes: Vec<u8>) -> (r: Option<String>)
    ensures
        r is Some <==> valid_utf8(bytes@),
        r matches Some(s) ==> encode_utf8(s@) == bytes@,
{
    String::from_utf8(bytes).ok()
}

/// Appends the encoding of `s`: UTF-8 byte length, then UTF-8 bytes.
fn ser_string(out: &mut Vec<u8>, s: &str)
    ensures
        final(out)@ == old(out)@ + spec_ser_string(s@),
        wf_text(s@),
{
    proof {
        reveal(spec_ser_string);
    }
    let bytes = s.as_bytes();
    ser_u64(out, bytes.len() as u64);
    let mut tail = slice_to_vec(bytes);
    out.append(&mut tail);
}

/// Reads a length-prefixed UTF-8 text at `pos`.
fn parse_string(data: &[u8], pos: usize) -> (r: Option<(String, usize)>)
    requires
        pos <= data@.len(),
    ensures
        r matches Some((s, end)) ==> spec_parse_string(data@.skip(pos as int)) == Some(
            (s@, end - pos),
        ) && pos <= end <= data@.len(),
        r is None ==> spec_parse_string(data@.skip(pos as int)) is None,
{
    proof {
        reveal(spec_parse_string);
    }
    let ghost suffix = data@.skip(pos as int);
    match parse_u64(data, pos) {
        None => None,
        Some((n, p8)) => {
            if n <= (data.len() - p8) as u64 {
                let end = p8 + (n as usize);
                let bytes = slice_to_vec(slice_subrange(data, p8, end));
                proof {
                    assert(bytes@ =~= suffix.subrange(8, 8 + n as int));
                }
                match string_from_utf8(bytes) {
                    Some(s) => {
                        proof {
                            encode_utf8_decode_utf8(s@);
                            assert(decode_utf8(suffix.subrange(8, 8 + n as int)) == s@);
                        }
                        Some((s, end))
                    },
                    None => None,
                }
            } else {
                None
            }
        },
    }
}

// ---------------------------------------------------------------------------
// Enum tags and optional fields
// ---------------------------------------------------------------------------
/// The tag byte of a status variant.
pub open spec fn status_tag(s: TaskStatus) -> u8 {
    match s {
        TaskStatus::Todo => 0,
        TaskStatus::InProgress => 1,
        TaskStatus::Done => 2,
        TaskStatus::Blocked => 3,
    }
}

/// The tag byte of a priority variant.
pub open spec fn priority_tag(p: TaskPriority) -> u8 {
    match p {
        TaskPriority::Low => 0,
        TaskPriority::Medium => 1,
        TaskPriority::High => 2,
        TaskPriority::Critical => 3,
    }
}

/// Reads a status variant from its tag byte; any other byte is rejected.
pub open spec fn spec_parse_status(b: Seq<u8>) -> Option<(TaskStatus, int)> {
    if b.len() < 1 {
        None
    } else if b[0] == 0 {
        Some((TaskStatus::Todo, 1int))
    } else if b[0] == 1 {
        Some((TaskStatus::InProgress, 1int))
    } else if b[0] == 2 {
        Some((TaskStatus::Done, 1int))
    } else if b[0] == 3 {
        Some((TaskStatus::Blocked, 1int))
    } else {
        None
    }
}

/// Reads a priority variant from its tag byte; any other byte is rejected.
pub open spec fn spec_parse_priority(b: Seq<u8>) -> Option<(TaskPriority, int)> {
    if b.len() < 1 {
        None
    } else if b[0] == 0 {
        Some((TaskPriority::Low, 1int))
    } else if b[0] == 1 {
        Some((TaskPriority::Medium, 1int))
    } else if b[0] == 2 {
        Some((TaskPriority::High, 1int))
    } else if b[0] == 3 {
        Some((TaskPriority::Critical, 1int))
    } else {
        None
    }
}

/// Appends the tag byte of a status variant.
fn ser_status(out: &mut Vec<u8>, s: &TaskStatus)
    ensures
        final(out)@ == old(out)@ + seq![status_tag(*s)],
{
    match s {
        TaskStatus::Todo => out.push(0u8),
        TaskStatus::InProgress => out.push(1u8),
        TaskStatus::Done => out.push(2u8),
        TaskStatus::Blocked => out.push(3u8),
    }
    proof {
        assert(out@ =~= old(out)@ + seq![status_tag(*s)]);
    }
}

/// Appends the tag byte of a priority variant.
fn ser_priority(out: &mut Vec<u8>, p: &TaskPriority)
    ensures
        final(out)@ == old(out)@ + seq![priority_tag(*p)],
{
    match p {
        TaskPriority::Low => out.push(0u8),
        TaskPriority::Medium => out.push(1u8),
        TaskPriority::High => out.push(2u8),
        TaskPriority::Critical => out.push(3u8),
    }
    proof {
        assert(out@ =~= old(out)@ + seq![priority_tag(*p)]);
    }
}

/// Reads a status tag byte at `pos`.
fn parse_status(data: &[u8], pos: usize) -> (r: Option<(TaskStatus, usize)>)
    requires
        pos <= data@.len(),
    ensures
        r matches Some((v, end)) ==> spec_parse_status(data@.skip(pos as int)) == Some(
            (v, end - pos),
        ) && pos <= end <= data@.len(),
        r is None ==> spec_parse_status(data@.skip(pos as int)) is None,
{
    if data.len() - pos >= 1 {
        let b = *vstd::slice::slice_index_get(data, pos);
        proof {
            assert(data@.skip(pos as int)[0] == b);
        }
        match b {
            0u8 => Some((TaskStatus::Todo, pos + 1)),
            1u8 => Some((TaskStatus::InProgress, pos + 1)),
            2u8 => Some((TaskStatus::Done, pos + 1)),
            3u8 => Some((TaskStatus::Blocked, pos + 1)),
            _ => None,
        }
    } else {
        None
    }
}

/// Reads a priority tag byte at `pos`.
fn parse_priority(data: &[u8], pos: usize) -> (r: Option<(TaskPriority, usize)>)
    requires
        pos <= data@.len(),
    ensures
        r matches Some((v, end)) ==> spec_parse_priority(data@.skip(pos as int)) == Some(
            (v, end - pos),
        ) && pos <= end <= data@.len(),
        r is None ==> spec_parse_priority(data@.skip(pos as int)) is None,
{
    if data.len() - pos >= 1 {
        let b = *vstd::slice::slice_index_get(data, pos);
        proof {
            assert(data@.skip(pos as int)[0] == b);
        }
        match b {
            0u8 => Some((TaskPriority::Low, pos + 1)),
            1u8 => Some((TaskPriority::Medium, pos + 1)),
            2u8 => Some((TaskPriority::High, pos + 1)),
            3u8 => Some((TaskPriority::Critical, pos + 1)),
            _ => None,
        }
    } else {
        None
    }
}

/// An optional text: a presence byte, then the text when present.
pub open spec fn spec_ser_opt_string(o: Option<Seq<char>>) -> Seq<u8> {
    match o {
        None => seq![0u8],
        Some(s) => seq![1u8] + spec_ser_string(s),
    }
}

/// Reads an optional text: presence byte 0 or 1, anything else rejected.
pub open spec fn spec_parse_opt_string(b: Seq<u8>) -> Option<(Option<Seq<char>>, int)> {
    if b.len() < 1 {
        None
    } else if b[0] == 0 {
        Some((None, 1int))
    } else if b[0] == 1 {
        match spec_parse_string(b.skip(1)) {
            Some((s, n)) => Some((Some(s), 1 + n)),
            None => None,
        }
    } else {
        None
    }
}

/// Parsing undoes serialization for optional text, whatever bytes follow.
proof fn lemma_parse_ser_opt_string(o: Option<Seq<char>>, rest: Seq<u8>)
    requires
        o matches Some(s) ==> wf_text(s),
    ensures
        spec_parse_opt_string(spec_ser_opt_string(o) + rest) == Some(
            (o, spec_ser_opt_string(o).len() as int),
        ),
{
    let b = spec_ser_opt_string(o) + rest;
    match o {
        None => {
            assert(b[0] == 0);
        },
        Some(s) => {
            assert(b[0] == 1);
            assert(b.skip(1) =~= spec_ser_string(s) + rest);
            lemma_parse_ser_string(s, rest);
        },
    }
}

/// Appends an optional text: presence byte, then the text when present.
fn ser_opt_string(out: &mut Vec<u8>, o: &Option<String>)
    ensures
        final(out)@ == old(out)@ + spec_ser_opt_string(match *o {
            Some(s) => Some(s@),
            None => None,
        }),
        (*o matches Some(s) ==> wf_text(s@)),
{
    match o {
        None => {
            out.push(0u8);
            proof {
                assert(out@ =~= old(out)@ + seq![0u8]);
            }
        },
        Some(s) => {
            out.push(1u8);
            let ghost mid = out@;
            ser_string(out, s.as_str());
            proof {
                assert(mid =~= old(out)@ + seq![1u8]);
                assert(out@ =~= old(out)@ + (seq![1u8] + spec_ser_string(s@)));
            }
        },
    }
}

/// Reads an optional text at `pos`.
fn parse_opt_string(data: &[u8], pos: usize) -> (r: Option<(Option<String>, usize)>)
    requires
        pos <= data@.len(),
    ensures
        r matches Some((v, end)) ==> spec_parse_opt_string(data@.skip(pos as int)) == Some(
            (
                match v {
                    Some(s) => Some(s@),
                    None => None,
                },
                end - pos,
            ),
        ) && pos <= end <= data@.len(),
        r is None ==> spec_parse_opt_string(data@.skip(pos as int)) is None,
{
    let ghost suffix = data@.skip(pos as int);
    if data.len() - pos >= 1 {
        let b = *vstd::slice::slice_index_get(data, pos);
        proof {
            assert(suffix[0] == b);
        }
        if b == 0 {
            Some((None, pos + 1))
        } else if b == 1 {
            proof {
                assert(data@.skip(pos as int + 1) =~= suffix.skip(1));
            }
            match parse_string(data, pos + 1) {
                Some((s, end)) => Some((Some(s), end)),
                None => None,
            }
        } else {
            None
        }
    } else {
        None
    }
}

// ---------------------------------------------------------------------------
// Ordered sequences of texts
// ---------------------------------------------------------------------------
/// The concatenated encodings of the texts, in order.
pub open spec fn spec_ser_strings(ss: Seq<Seq<char>>) -> Seq<u8>
    decreases ss.len(),
{
    if ss.len() == 0 {
        Seq::empty()
    } else {
        spec_ser_string(ss[0]) + spec_ser_strings(ss.drop_first())
    }
}

/// A text sequence's encoding: its count as a `u64`, then each text in order.
#[verifier::opaque]
pub open spec fn spec_ser_string_vec(ss: Seq<Seq<char>>) -> Seq<u8> {
    u64_le(ss.len() as u64) + spec_ser_strings(ss)
}

/// Every text fits its length prefix, and the count fits its prefix.
pub open spec fn wf_texts(ss: Seq<Seq<char>>) -> bool {
    &&& ss.len() <= u64::MAX
    &&& forall|i: int| 0 <= i < ss.len() ==> wf_text(#[trigger] ss[i])
}

/// Reads `m` consecutive texts from the front of `b`.
pub open spec fn spec_parse_strings(b: Seq<u8>, m: nat) -> Option<(Seq<Seq<char>>, int)>
    decreases m,
{
    if m == 0 {
        Some((Seq::empty(), 0int))
    } else {
        match spec_parse_string(b) {
            Some((s, k)) => match spec_parse_strings(b.skip(k), (m - 1) as nat) {
                Some((ss, j)) => Some((seq![s] + ss, k + j)),
                None => None,
            },
            None => None,
        }
    }
}

/// Reads a count-prefixed text sequence from the front of `b`.
#[verifier::opaque]
pub open spec fn spec_parse_string_vec(b: Seq<u8>) -> Option<(Seq<Seq<char>>, int)> {
    match spec_parse_u64(b) {
        Some((m, _k)) => match spec_parse_strings(b.skip(8), m as nat) {
            Some((ss, j)) => Some((ss, 8 + j)),
            None => None,
        },
        None => None,
    }
}

/// Appending one more text extends the concatenated encodings at the end.
proof fn lemma_ser_strings_push(ss: Seq<Seq<char>>, x: Seq<char>)
    ensures
        spec_ser_strings(ss.push(x)) == spec_ser_strings(ss) + spec_ser_string(x),
    decreases ss.len(),
{
    let p = ss.push(x);
    if ss.len() == 0 {
        assert(p[0] == x);
        assert(p.drop_first() =~= Seq::<Seq<char>>::empty());
        assert(spec_ser_strings(p) == spec_ser_string(x) + spec_ser_strings(Seq::empty()));
        assert(spec_ser_string(x) + Seq::<u8>::empty() =~= spec_ser_string(x));
        assert(spec_ser_strings(ss) + spec_ser_string(x) =~= spec_ser_string(x));
    } else {
        assert(p[0] == ss[0]);
        assert(p.drop_first() =~= ss.drop_first().push(x));
        lemma_ser_strings_push(ss.drop_first(), x);
        assert(spec_ser_strings(p) == spec_ser_string(ss[0]) + spec_ser_strings(
            ss.drop_first().push(x),
        ));
        assert(spec_ser_string(ss[0]) + (spec_ser_strings(ss.drop_first()) + spec_ser_string(x))
            =~= (spec_ser_string(ss[0]) + spec_ser_strings(ss.drop_first())) + spec_ser_string(x));
    }
}

/// Parsing undoes serialization for a run of texts, whatever bytes follow.
proof fn lemma_parse_ser_strings(ss: Seq<Seq<char>>, rest: Seq<u8>)
    requires
        forall|i: int| 0 <= i < ss.len() ==> wf_text(#[trigger] ss[i]),
    ensures
        spec_parse_strings(spec_ser_strings(ss) + rest, ss.len()) == Some(
            (ss, spec_ser_strings(ss).len() as int),
        ),
    decreases ss.len(),
{
    if ss.len() == 0 {
        assert(ss =~= Seq::<Seq<char>>::empty());
    } else {
        let s0 = ss[0];
        let tail = ss.drop_first();
        let b = spec_ser_strings(ss) + rest;
        let tail_bytes = spec_ser_strings(tail) + rest;
        assert(b =~= spec_ser_string(s0) + tail_bytes);
        lemma_parse_ser_string(s0, tail_bytes);
        let k = spec_ser_string(s0).len() as int;
        assert(b.skip(k) =~= tail_bytes);
        lemma_parse_ser_strings(tail, rest);
        assert(seq![s0] + tail =~= ss);
    }
}

/// Parsing undoes serialization for a text sequence, whatever bytes follow.
proof fn lemma_parse_ser_string_vec(ss: Seq<Seq<char>>, rest: Seq<u8>)
    requires
        wf_texts(ss),
    ensures
        spec_parse_string_vec(spec_ser_string_vec(ss) + rest) == Some(
            (ss, spec_ser_string_vec(ss).len() as int),
        ),
{
    reveal(spec_ser_string_vec);
    reveal(spec_parse_string_vec);
    let m = ss.len() as u64;
    let body = spec_ser_strings(ss) + rest;
    let b = spec_ser_string_vec(ss) + rest;
    assert(b =~= u64_le(m) + body);
    lemma_parse_ser_u64(m, body);
    assert(b.skip(8) =~= body);
    lemma_parse_ser_strings(ss, rest);
}

/// Appends a count-prefixed text sequence.
fn ser_string_vec(out: &mut Vec<u8>, ss: &Vec<String>)
    ensures
        final(out)@ == old(out)@ + spec_ser_string_vec(ss.deep_view()),
        wf_texts(ss.deep_view()),
{
    proof {
        reveal(spec_ser_string_vec);
    }
    ser_u64(out, ss.len() as u64);
    let ghost base = out@;
    let mut i: usize = 0;
    while i < ss.len()
        invariant
            i <= ss@.len(),
            base == old(out)@ + u64_le(ss@.len() as u64),
            out@ == base + spec_ser_strings(ss.deep_view().take(i as int)),
            forall|j: int| 0 <= j < i ==> wf_text(#[trigger] ss.deep_view()[j]),
        decreases ss@.len() - i,
    {
        let ghost pre = out@;
        ser_string(out, ss[i].as_str());
        proof {
            assert(ss.deep_view()[i as int] == ss@[i as int]@);
            lemma_ser_strings_push(ss.deep_view().take(i as int), ss.deep_view()[i as int]);
            assert(ss.deep_view().take(i as int + 1) =~= ss.deep_view().take(i as int).push(
                ss.deep_view()[i as int],
            ));
            assert(out@ =~= base + spec_ser_strings(ss.deep_view().take(i as int + 1)));
        }
        i = i + 1;
    }
    proof {
        assert(ss.deep_view().take(ss@.len() as int) =~= ss.deep_view());
        assert(out@ =~= old(out)@ + spec_ser_string_vec(ss.deep_view()));
    }
}

/// Reads a count-prefixed text sequence at `pos`.
fn parse_string_vec(data: &[u8], pos: usize) -> (r: Option<(Vec<String>, usize)>)
    requires
        pos <= data@.len(),
    ensures
        r matches Some((v, end)) ==> spec_parse_string_vec(data@.skip(pos as int)) == Some(
            (v.deep_view(), end - pos),
        ) && pos <= end <= data@.len(),
        r is None ==> spec_parse_string_vec(data@.skip(pos as int)) is None,
{
    proof {
        reveal(spec_parse_string_vec);
    }
    let ghost suffix = data@.skip(pos as int);
    match parse_u64(data, pos) {
        None => None,
        Some((m, p8)) => {
            proof {
                assert(data@.skip(p8 as int) =~= suffix.skip(8));
            }
            let mut acc: Vec<String> = Vec::new();
            let mut cur: usize = p8;
            let mut i: u64 = 0;
            proof {
                assert(acc.deep_view() =~= Seq::<Seq<char>>::empty());
            }
            while i < m
                invariant
                    i <= m,
                    pos <= p8 <= cur <= data@.len(),
                    p8 - pos == 8,
                    suffix == data@.skip(pos as int),
                    spec_parse_u64(suffix) == Some((m, 8int)),
                    (match spec_parse_strings(data@.skip(cur as int), (m - i) as nat) {
                        Some((ss2, j)) => spec_parse_strings(suffix.skip(8), m as nat) == Some(
                            (acc.deep_view() + ss2, (cur - p8) + j),
                        ),
                        None => spec_parse_strings(suffix.skip(8), m as nat) is None,
                    }),
                decreases m - i,
            {
                let ghost acc_dv = acc.deep_view();
                match parse_string(data, cur) {
                    None => {
                        proof {
                            reveal(spec_parse_string_vec);
                        }
                        return None;
                    },
                    Some((s, end)) => {
                        proof {
                            assert(data@.skip(cur as int).skip((end - cur) as int) =~= data@.skip(
                                end as int,
                            ));
                        }
                        acc.push(s);
                        proof {
                            assert(acc.deep_view() =~= acc_dv.push(s@));
                            if let Some((ss3, j3)) = spec_parse_strings(
                                data@.skip(end as int),
                                (m - i - 1) as nat,
                            ) {
                                assert(acc_dv + (seq![s@] + ss3) =~= acc_dv.push(s@) + ss3);
                            }
                        }
                        cur = end;
                        i = i + 1;
                    },
                }
            }
            proof {
                assert(acc.deep_view() + Seq::<Seq<char>>::empty() =~= acc.deep_view());
            }
            Some((acc, cur))
        },
    }
}

// ---------------------------------------------------------------------------
// Insights
// ---------------------------------------------------------------------------
/// An insights record: the 32-bit complexity image, then the two text
/// sequences in order.
#[verifier::opaque]
pub open spec fn spec_ser_insights(iv: InsightsView) -> Seq<u8> {
    u32_le(iv.complexity_bits) + spec_ser_string_vec(iv.recommended_subtasks)
        + spec_ser_string_vec(iv.potential_blockers)
}

/// Reads an insights record from the front of `b`.
#[verifier::opaque]
pub open spec fn spec_parse_insights(b: Seq<u8>) -> Option<(InsightsView, int)> {
    match spec_parse_u32(b) {
        Some((c, _k)) => match spec_parse_string_vec(b.skip(4)) {
            Some((rs, n1)) => match spec_parse_string_vec(b.skip(4 + n1)) {
                Some((pb, n2)) => Some(
                    (
                        InsightsView {
                            complexity_bits: c,
                            recommended_subtasks: rs,
                            potential_blockers: pb,
                        },
                        4 + n1 + n2,
                    ),
                ),
                None => None,
            },
            None => None,
        },
        None => None,
    }
}

/// Every text of the record fits its length prefix.
pub open spec fn wf_insights(iv: InsightsView) -> bool {
    wf_texts(iv.recommended_subtasks) && wf_texts(iv.potential_blockers)
}

/// Parsing undoes serialization for an insights record, whatever follows.
proof fn lemma_parse_ser_insights(iv: InsightsView, rest: Seq<u8>)
    requires
        wf_insights(iv),
    ensures
        spec_parse_insights(spec_ser_insights(iv) + rest) == Some(
            (iv, spec_ser_insights(iv).len() as int),
        ),
{
    reveal(spec_ser_insights);
    reveal(spec_parse_insights);
    let c = iv.complexity_bits;
    let rs = spec_ser_string_vec(iv.recommended_subtasks);
    let pb = spec_ser_string_vec(iv.potential_blockers);
    let b = spec_ser_insights(iv) + rest;
    assert(b =~= u32_le(c) + (rs + (pb + rest)));
    lemma_parse_ser_u32(c, rs + (pb + rest));
    assert(b.skip(4) =~= spec_ser_string_vec(iv.recommended_subtasks) + (pb + rest));
    lemma_parse_ser_string_vec(iv.recommended_subtasks, pb + rest);
    assert(b.skip(4 + rs.len() as int) =~= spec_ser_string_vec(iv.potential_blockers) + rest);
    lemma_parse_ser_string_vec(iv.potential_blockers, rest);
}

/// Appends an insights record.
fn ser_insights(out: &mut Vec<u8>, ins: &AIInsights)
    ensures
        final(out)@ == old(out)@ + spec_ser_insights(ins@),
        wf_insights(ins@),
{
    proof {
        reveal(spec_ser_insights);
    }
    ser_u32(out, ins.complexity_bits);
    ser_string_vec(out, &ins.recommended_subtasks);
    ser_string_vec(out, &ins.potential_blockers);
    proof {
        assert(out@ =~= old(out)@ + spec_ser_insights(ins@));
    }
}

/// Reads an insights record at `pos`.
fn parse_insights(data: &[u8], pos: usize) -> (r: Option<(AIInsights, usize)>)
    requires
        pos <= data@.len(),
    ensures
        r matches Some((a, end)) ==> spec_parse_insights(data@.skip(pos as int)) == Some(
            (a@, end - pos),
        ) && pos <= end <= data@.len(),
        r is None ==> spec_parse_insights(data@.skip(pos as int)) is None,
{
    proof {
        reveal(spec_parse_insights);
    }
    let ghost suffix = data@.skip(pos as int);
    match parse_u32(data, pos) {
        None => None,
        Some((c, p4)) => {
            proof {
                assert(data@.skip(p4 as int) =~= suffix.skip(4));
            }
            match parse_string_vec(data, p4) {
                None => None,
                Some((rs, end1)) => {
                    proof {
                        assert(data@.skip(end1 as int) =~= suffix.skip(4 + (end1 - p4)));
                    }
                    match parse_string_vec(data, end1) {
                        None => None,
                        Some((pb, end2)) => {
                            let a = AIInsights {
                                complexity_bits: c,
                                recommended_subtasks: rs,
                                potential_blockers: pb,
                            };
                            Some((a, end2))
                        },
                    }
                },
            }
        },
    }
}

/// An optional insights record: a presence byte, then the record if present.
pub open spec fn spec_ser_opt_insights(o: Option<InsightsView>) -> Seq<u8> {
    match o {
        None => seq![0u8],
        Some(iv) => seq![1u8] + spec_ser_insights(iv),
    }
}

/// Reads an optional insights record: presence byte 0 or 1, else rejected.
pub open spec fn spec_parse_opt_insights(b: Seq<u8>) -> Option<(Option<InsightsView>, int)> {
    if b.len() < 1 {
        None
    } else if b[0] == 0 {
        Some((None, 1int))
    } else if b[0] == 1 {
        match spec_parse_insights(b.skip(1)) {
            Some((iv, n)) => Some((Some(iv), 1 + n)),
            None => None,
        }
    } else {
        None
    }
}

/// Parsing undoes serialization for optional insights, whatever follows.
proof fn lemma_parse_ser_opt_insights(o: Option<InsightsView>, rest: Seq<u8>)
    requires
        o matches Some(iv) ==> wf_insights(iv),
    ensures
        spec_parse_opt_insights(spec_ser_opt_insights(o) + rest) == Some(
            (o, spec_ser_opt_insights(o).len() as int),
        ),
{
    let b = spec_ser_opt_insights(o) + rest;
    match o {
        None => {
            assert(b[0] == 0);
        },
        Some(iv) => {
            assert(b[0] == 1);
            assert(b.skip(1) =~= spec_ser_insights(iv) + rest);
            lemma_parse_ser_insights(iv, rest);
        },
    }
}

/// Appends an optional insights record.
fn ser_opt_insights(out: &mut Vec<u8>, o: &Option<AIInsights>)
    ensures
        final(out)@ == old(out)@ + spec_ser_opt_insights(match *o {
            Some(a) => Some(a@),
            None => None,
        }),
        (*o matches Some(a) ==> wf_insights(a@)),
{
    match o {
        None => {
            out.push(0u8);
            proof {
                assert(out@ =~= old(out)@ + seq![0u8]);
            }
        },
        Some(a) => {
            out.push(1u8);
            let ghost mid = out@;
            ser_insights(out, a);
            proof {
                assert(mid =~= old(out)@ + seq![1u8]);
                assert(out@ =~= old(out)@ + (seq![1u8] + spec_ser_insights(a@)));
            }
        },
    }
}

/// Reads an optional insights record at `pos`.
fn parse_opt_insights(data: &[u8], pos: usize) -> (r: Option<(Option<AIInsights>, usize)>)
    requires
        pos <= data@.len(),
    ensures
        r matches Some((v, end)) ==> spec_parse_opt_insights(data@.skip(pos as int)) == Some(
            (
                match v {
                    Some(a) => Some(a@),
                    None => None,
                },
                end - pos,
            ),
        ) && pos <= end <= data@.len(),
        r is None ==> spec_parse_opt_insights(data@.skip(pos as int)) is None,
{
    let ghost suffix = data@.skip(pos as int);
    if data.len() - pos >= 1 {
        let b = *vstd::slice::slice_index_get(data, pos);
        proof {
            assert(suffix[0] == b);
        }
        if b == 0 {
            Some((None, pos + 1))
        } else if b == 1 {
            proof {
                assert(data@.skip(pos as int + 1) =~= suffix.skip(1));
            }
            match parse_insights(data, pos + 1) {
                Some((a, end)) => Some((Some(a), end)),
                None => None,
            }
        } else {
            None
        }
    } else {
        None
    }
}

// ---------------------------------------------------------------------------
// Whole task records
// ---------------------------------------------------------------------------
/// A task record: id, title, optional description, status tag, priority tag,
/// optional insights, in that order.
pub open spec fn spec_ser_task(tv: TaskView) -> Seq<u8> {
    spec_ser_string(tv.id) + spec_ser_string(tv.title) + spec_ser_opt_string(tv.description)
        + seq![status_tag(tv.status)] + seq![priority_tag(tv.priority)] + spec_ser_opt_insights(
        tv.ai_insights,
    )
}

/// Reads the priority tag and the optional insights that end a task record,
/// completing the record from the fields parsed before it.
pub open spec fn spec_parse_task_priority(
    b: Seq<u8>,
    id: Seq<char>,
    title: Seq<char>,
    description: Option<Seq<char>>,
    status: TaskStatus,
) -> Option<(TaskView, int)> {
    match spec_parse_priority(b) {
        Some((priority, n)) => match spec_parse_opt_insights(b.skip(n)) {
            Some((ai_insights, k)) => Some(
                (TaskView { id, title, description, status, priority, ai_insights }, n + k),
            ),
            None => None,
        },
        None => None,
    }
}

/// Reads a task record from the status tag on.
pub open spec fn spec_parse_task_status(
    b: Seq<u8>,
    id: Seq<char>,
    title: Seq<char>,
    description: Option<Seq<char>>,
) -> Option<(TaskView, int)> {
    match spec_parse_status(b) {
        Some((status, n)) => match spec_parse_task_priority(b.skip(n), id, title, description, status) {
            Some((tv, k)) => Some((tv, n + k)),
            None => None,
        },
        None => None,
    }
}

/// Reads a task record from the optional description on.
pub open spec fn spec_parse_task_description(b: Seq<u8>, id: Seq<char>, title: Seq<char>) -> Option<
    (TaskView, int),
> {
    match spec_parse_opt_string(b) {
        Some((description, n)) => match spec_parse_task_status(b.skip(n), id, title, description) {
            Some((tv, k)) => Some((tv, n + k)),
            None => None,
        },
        None => None,
    }
}

/// Reads a task record from the title on.
pub open spec fn spec_parse_task_title(b: Seq<u8>, id: Seq<char>) -> Option<(TaskView, int)> {
    match spec_parse_string(b) {
        Some((title, n)) => match spec_parse_task_description(b.skip(n), id, title) {
            Some((tv, k)) => Some((tv, n + k)),
            None => None,
        },
        None => None,
    }
}

/// Reads a task record from the front of `b`: id, title, optional
/// description, status tag, priority tag, optional insights, in that order.
pub open spec fn spec_parse_task(b: Seq<u8>) -> Option<(TaskView, int)> {
    match spec_parse_string(b) {
        Some((id, n)) => match spec_parse_task_title(b.skip(n), id) {
            Some((tv, k)) => Some((tv, n + k)),
            None => None,
        },
        None => None,
    }
}

/// Accepts a payload only when it is exactly one task record: a record
/// followed by anything is rejected, as is anything that is not a record.
pub open spec fn spec_deser_task(b: Seq<u8>) -> Option<TaskView> {
    match spec_parse_task(b) {
        Some((tv, n)) => if n == b.len() {
            Some(tv)
        } else {
            None
        },
        None => None,
    }
}

/// Every text of the record fits its length prefix. This holds of the image
/// of every task value the program can build, since a text in memory is
/// never longer than the address space.
pub open spec fn wf_task_view(tv: TaskView) -> bool {
    &&& wf_text(tv.id)
    &&& wf_text(tv.title)
    &&& (tv.description matches Some(d) ==> wf_text(d))
    &&& (tv.ai_insights matches Some(iv) ==> wf_insights(iv))
}

/// Re-associates the six parts of a record and the bytes that follow it.
proof fn lemma_assoc_six(
    p1: Seq<u8>,
    p2: Seq<u8>,
    p3: Seq<u8>,
    p4: Seq<u8>,
    p5: Seq<u8>,
    p6: Seq<u8>,
    rest: Seq<u8>,
)
    ensures
        (((((p1 + p2) + p3) + p4) + p5) + p6) + rest == p1 + (p2 + (p3 + (p4 + (p5 + (p6
            + rest))))),
{
    assert((((((p1 + p2) + p3) + p4) + p5) + p6) + rest =~= p1 + (p2 + (p3 + (p4 + (p5 + (p6
        + rest))))));
}

/// Skipping a leading part of a concatenation leaves the rest.
proof fn lemma_skip_concat(a: Seq<u8>, b: Seq<u8>)
    ensures
        (a + b).skip(a.len() as int) == b,
{
    assert((a + b).skip(a.len() as int) =~= b);
}

/// Two skips in a row skip the sum.
proof fn lemma_skip_skip(s: Seq<u8>, a: int, b: int)
    requires
        0 <= a,
        0 <= b,
        a + b <= s.len(),
    ensures
        s.skip(a).skip(b) == s.skip(a + b),
{
    assert(s.skip(a).skip(b) =~= s.skip(a + b));
}

/// One unfolding of `spec_parse_task_priority` with both steps known.
proof fn lemma_compose_task_priority(
    b: Seq<u8>,
    id: Seq<char>,
    title: Seq<char>,
    description: Option<Seq<char>>,
    status: TaskStatus,
    priority: TaskPriority,
    n: int,
    ai_insights: Option<InsightsView>,
    k: int,
)
    requires
        spec_parse_priority(b) == Some((priority, n)),
        spec_parse_opt_insights(b.skip(n)) == Some((ai_insights, k)),
    ensures
        spec_parse_task_priority(b, id, title, description, status) == Some(
            (TaskView { id, title, description, status, priority, ai_insights }, n + k),
        ),
{
}

/// One unfolding of `spec_parse_task_status` with both steps known.
proof fn lemma_compose_task_status(
    b: Seq<u8>,
    id: Seq<char>,
    title: Seq<char>,
    description: Option<Seq<char>>,
    status: TaskStatus,
    n: int,
    tv: TaskView,
    k: int,
)
    requires
        spec_parse_status(b) == Some((status, n)),
        spec_parse_task_priority(b.skip(n), id, title, description, status) == Some((tv, k)),
    ensures
        spec_parse_task_status(b, id, title, description) == Some((tv, n + k)),
{
}

/// One unfolding of `spec_parse_task_description` with both steps known.
proof fn lemma_compose_task_description(
    b: Seq<u8>,
    id: Seq<char>,
    title: Seq<char>,
    description: Option<Seq<char>>,
    n: int,
    tv: TaskView,
    k: int,
)
    requires
        spec_parse_opt_string(b) == Some((description, n)),
        spec_parse_task_status(b.skip(n), id, title, description) == Some((tv, k)),
    ensures
        spec_parse_task_description(b, id, title) == Some((tv, n + k)),
{
}

/// One unfolding of `spec_parse_task_title` with both steps known.
proof fn lemma_compose_task_title(
    b: Seq<u8>,
    id: Seq<char>,
    title: Seq<char>,
    n: int,
    tv: TaskView,
    k: int,
)
    requires
        spec_parse_string(b) == Some((title, n)),
        spec_parse_task_description(b.skip(n), id, title) == Some((tv, k)),
    ensures
        spec_parse_task_title(b, id) == Some((tv, n + k)),
{
}

/// One unfolding of `spec_parse_task` with both steps known.
proof fn lemma_compose_task(b: Seq<u8>, id: Seq<char>, n: int, tv: TaskView, k: int)
    requires
        spec_parse_string(b) == Some((id, n)),
        spec_parse_task_title(b.skip(n), id) == Some((tv, k)),
    ensures
        spec_parse_task(b) == Some((tv, n + k)),
{
}

/// Parsing undoes serialization from the priority tag on.
proof fn lemma_parse_ser_task_priority(tv: TaskView, rest: Seq<u8>)
    requires
        tv.ai_insights matches Some(iv) ==> wf_insights(iv),
    ensures
        ({
            let tail = seq![priority_tag(tv.priority)] + (spec_ser_opt_insights(tv.ai_insights)
                + rest);
            spec_parse_task_priority(tail, tv.id, tv.title, tv.description, tv.status) == Some(
                (tv, tail.len() - rest.len()),
            )
        }),
{
    let p6 = spec_ser_opt_insights(tv.ai_insights);
    let tail = seq![priority_tag(tv.priority)] + (p6 + rest);
    assert(tail[0] == priority_tag(tv.priority));
    lemma_skip_concat(seq![priority_tag(tv.priority)], p6 + rest);
    lemma_parse_ser_opt_insights(tv.ai_insights, rest);
}

/// Parsing undoes serialization from the status tag on.
proof fn lemma_parse_ser_task_status(tv: TaskView, rest: Seq<u8>)
    requires
        tv.ai_insights matches Some(iv) ==> wf_insights(iv),
    ensures
        ({
            let tail = seq![status_tag(tv.status)] + (seq![priority_tag(tv.priority)] + (
            spec_ser_opt_insights(tv.ai_insights) + rest));
            spec_parse_task_status(tail, tv.id, tv.title, tv.description) == Some(
                (tv, tail.len() - rest.len()),
            )
        }),
{
    let inner = seq![priority_tag(tv.priority)] + (spec_ser_opt_insights(tv.ai_insights) + rest);
    let tail = seq![status_tag(tv.status)] + inner;
    assert(tail[0] == status_tag(tv.status));
    lemma_skip_concat(seq![status_tag(tv.status)], inner);
    lemma_parse_ser_task_priority(tv, rest);
    lemma_compose_task_status(
        tail,
        tv.id,
        tv.title,
        tv.description,
        tv.status,
        1int,
        tv,
        inner.len() - rest.len(),
    );
}

/// Parsing undoes serialization from the optional description on.
proof fn lemma_parse_ser_task_description(tv: TaskView, rest: Seq<u8>)
    requires
        tv.description matches Some(d) ==> wf_text(d),
        tv.ai_insights matches Some(iv) ==> wf_insights(iv),
    ensures
        ({
            let p3 = spec_ser_opt_string(tv.description);
            let tail = p3 + (seq![status_tag(tv.status)] + (seq![priority_tag(tv.priority)] + (
            spec_ser_opt_insights(tv.ai_insights) + rest)));
            spec_parse_task_description(tail, tv.id, tv.title) == Some(
                (tv, tail.len() - rest.len()),
            )
        }),
{
    let p3 = spec_ser_opt_string(tv.description);
    let inner = seq![status_tag(tv.status)] + (seq![priority_tag(tv.priority)] + (
    spec_ser_opt_insights(tv.ai_insights) + rest));
    lemma_parse_ser_opt_string(tv.description, inner);
    lemma_skip_concat(p3, inner);
    lemma_parse_ser_task_status(tv, rest);
    lemma_compose_task_description(
        p3 + inner,
        tv.id,
        tv.title,
        tv.description,
        p3.len() as int,
        tv,
        inner.len() - rest.len(),
    );
}

/// Parsing undoes serialization from the title on.
proof fn lemma_parse_ser_task_title(tv: TaskView, rest: Seq<u8>)
    requires
        wf_text(tv.title),
        tv.description matches Some(d) ==> wf_text(d),
        tv.ai_insights matches Some(iv) ==> wf_insights(iv),
    ensures
        ({
            let p2 = spec_ser_string(tv.title);
            let tail = p2 + (spec_ser_opt_string(tv.description) + (seq![status_tag(tv.status)] + (
            seq![priority_tag(tv.priority)] + (spec_ser_opt_insights(tv.ai_insights) + rest))));
            spec_parse_task_title(tail, tv.id) == Some((tv, tail.len() - rest.len()))
        }),
{
    let p2 = spec_ser_string(tv.title);
    let inner = spec_ser_opt_string(tv.description) + (seq![status_tag(tv.status)] + (
    seq![priority_tag(tv.priority)] + (spec_ser_opt_insights(tv.ai_insights) + rest)));
    lemma_parse_ser_string(tv.title, inner);
    lemma_skip_concat(p2, inner);
    lemma_parse_ser_task_description(tv, rest);
    lemma_compose_task_title(
        p2 + inner,
        tv.id,
        tv.title,
        p2.len() as int,
        tv,
        inner.len() - rest.len(),
    );
}

/// Parsing undoes serialization for a task record, whatever bytes follow.
proof fn lemma_parse_ser_task(tv: TaskView, rest: Seq<u8>)
    requires
        wf_task_view(tv),
    ensures
        spec_parse_task(spec_ser_task(tv) + rest) == Some((tv, spec_ser_task(tv).len() as int)),
{
    let p1 = spec_ser_string(tv.id);
    let p2 = spec_ser_string(tv.title);
    let p3 = spec_ser_opt_string(tv.description);
    let p4 = seq![status_tag(tv.status)];
    let p5 = seq![priority_tag(tv.priority)];
    let p6 = spec_ser_opt_insights(tv.ai_insights);
    let b = spec_ser_task(tv) + rest;
    lemma_assoc_six(p1, p2, p3, p4, p5, p6, rest);
    let inner = p2 + (p3 + (p4 + (p5 + (p6 + rest))));
    assert(b == p1 + inner);
    lemma_parse_ser_string(tv.id, inner);
    lemma_skip_concat(p1, inner);
    lemma_parse_ser_task_title(tv, rest);
    lemma_compose_task(b, tv.id, p1.len() as int, tv, inner.len() - rest.len());
}

/// Law: the codec is lossless. Deserializing the exact bytes that
/// serialization produced yields the original task value, for every task
/// value whose texts fit their length prefixes.
pub proof fn lemma_task_round_trip(tv: TaskView)
    requires
        wf_task_view(tv),
    ensures
        spec_deser_task(spec_ser_task(tv)) == Some(tv),
{
    lemma_parse_ser_task(tv, Seq::empty());
    assert(spec_ser_task(tv) + Seq::<u8>::empty() =~= spec_ser_task(tv));
}

/// Serializes a task to the codec's byte layout. The output is exactly the
/// record `spec_ser_task` describes, and every task the program can build is
/// well formed for the codec.
pub fn serialize_task(t: &Task) -> (r: Vec<u8>)
    ensures
        r@ == spec_ser_task(t@),
        wf_task_view(t@),
{
    let mut out: Vec<u8> = Vec::new();
    ser_string(&mut out, t.id.as_str());
    ser_string(&mut out, t.title.as_str());
    ser_opt_string(&mut out, &t.description);
    ser_status(&mut out, &t.status);
    ser_priority(&mut out, &t.priority);
    ser_opt_insights(&mut out, &t.ai_insights);
    proof {
        assert(out@ =~= spec_ser_task(t@));
    }
    out
}

/// Reads a task record at `pos`.
fn parse_task(data: &[u8], pos: usize) -> (r: Option<(Task, usize)>)
    requires
        pos <= data@.len(),
    ensures
        r matches Some((t, end)) ==> spec_parse_task(data@.skip(pos as int)) == Some(
            (t@, end - pos),
        ) && pos <= end <= data@.len(),
        r is None ==> spec_parse_task(data@.skip(pos as int)) is None,
{
    match parse_string(data, pos) {
        None => None,
        Some((id, e1)) => {
            proof {
                lemma_skip_skip(data@, pos as int, e1 - pos);
            }
            match parse_string(data, e1) {
                None => None,
                Some((title, e2)) => {
                    proof {
                        lemma_skip_skip(data@, e1 as int, e2 - e1);
                    }
                    match parse_opt_string(data, e2) {
                        None => None,
                        Some((description, e3)) => {
                            proof {
                                lemma_skip_skip(data@, e2 as int, e3 - e2);
                            }
                            match parse_status(data, e3) {
                                None => None,
                                Some((status, e4)) => {
                                    proof {
                                        lemma_skip_skip(data@, e3 as int, e4 - e3);
                                    }
                                    match parse_priority(data, e4) {
                                        None => None,
                                        Some((priority, e5)) => {
                                            proof {
                                                lemma_skip_skip(data@, e4 as int, e5 - e4);
                                            }
                                            match parse_opt_insights(data, e5) {
                                                None => None,
                                                Some((ai_insights, e6)) => {
                                                    let t = Task {
                                                        id,
                                                        title,
                                                        description,
                                                        status,
                                                        priority,
                                                        ai_insights,
                                                    };
                                                    proof {
                                                        lemma_compose_task_priority(
                                                            data@.skip(e4 as int),
                                                            t@.id,
                                                            t@.title,
                                                            t@.description,
                                                            t@.status,
                                                            t@.priority,
                                                            e5 - e4,
                                                            t@.ai_insights,
                                                            e6 - e5,
                                                        );
                                                        lemma_compose_task_status(
                                                            data@.skip(e3 as int),
                                                            t@.id,
                                                            t@.title,
                                                            t@.description,
                                                            t@.status,
                                                            e4 - e3,
                                                            t@,
                                                            e6 - e4,
                                                        );
                                                        lemma_compose_task_description(
                                                            data@.skip(e2 as int),
                                                            t@.id,
                                                            t@.title,
                                                            t@.description,
                                                            e3 - e2,
                                                            t@,
                                                            e6 - e3,
                                                        );
                                                        lemma_compose_task_title(
                                                            data@.skip(e1 as int),
                                                            t@.id,
                                                            t@.title,
                                                            e2 - e1,
                                                            t@,
                                                            e6 - e2,
                                                        );
                                                        lemma_compose_task(
                                                            data@.skip(pos as int),
                                                            t@.id,
                                                            e1 - pos,
                                                            t@,
                                                            e6 - e1,
                                                        );
                                                    }
                                                    Some((t, e6))
                                                },
                                            }
                                        },
                                    }
                                },
                            }
                        },
                    }
                },
            }
        },
    }
}

/// Deserializes a task from the codec's byte layout.
///
/// Returns the task exactly when the payload is one well-formed record and
/// nothing else; every other payload — wrong tag, truncated field, invalid
/// text, trailing bytes — is rejected with `MalformedData`, and no default
/// value is ever substituted.
pub fn deserialize_task(data: &[u8]) -> (r: Result<Task, DataError>)
    ensures
        r matches Ok(t) ==> spec_deser_task(data@) == Some(t@),
        r matches Err(e) ==> spec_deser_task(data@) is None && e == DataError::MalformedData,
{
    proof {
        assert(data@.skip(0) =~= data@);
    }
    match parse_task(data, 0) {
        None => Err(DataError::MalformedData),
        Some((t, end)) => {
            if end == data.len() {
                Ok(t)
            } else {
                Err(DataError::MalformedData)
            }
        },
    }
}

} // verus!
