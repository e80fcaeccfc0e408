//! The manifest decoder: an explicit byte-cursor parser for the launcher's
//! binary shortcut list, checked against a mathematical parser over byte
//! sequences.
//!
//! The format is a binary key/value tree. The stream opens with a structural
//! marker (a NUL byte, the word `shortcuts` in either case, a NUL byte).
//! Each record opens with a NUL byte and its NUL-terminated index text, then
//! holds typed fields in any order: a `0x01` byte introduces a string field
//! (NUL-terminated key, NUL-terminated value), a `0x02` byte a numeric field
//! (NUL-terminated key, four value bytes little-endian), and a NUL byte a
//! nested block (NUL-terminated key, content up to the next `0x08`), which is
//! skipped. A `0x08` byte closes the record. Unrecognized keys are ignored;
//! a record missing one of the five required fields is malformed. Every
//! failure carries the byte offset of the flaw.

use vstd::prelude::*;

use crate::byteseq::eq_ignore_ascii_case;
use crate::byteseq::find_byte_from;
use crate::byteseq::find_from;
use crate::byteseq::key_is;
use crate::byteseq::lemma_find_from;
use crate::byteseq::lemma_find_from_at;
use crate::records::RecordView;
use crate::records::ShortcutRecord;
use crate::PipelineError;

verus! {

/// The key of the numeric identifier field: the bytes of `appid`.
pub open spec fn key_appid() -> Seq<u8> {
    seq![97u8, 112, 112, 105, 100]
}

/// The alternate spelling of the identifier key: the bytes of `app_id`.
pub open spec fn key_app_id() -> Seq<u8> {
    seq![97u8, 112, 112, 95, 105, 100]
}

/// The key of the display-name field: the bytes of `appname`.
pub open spec fn key_appname() -> Seq<u8> {
    seq![97u8, 112, 112, 110, 97, 109, 101]
}

/// The key of the executable-path field: the bytes of `exe`.
pub open spec fn key_exe() -> Seq<u8> {
    seq![101u8, 120, 101]
}

/// The key of the working-directory field: the bytes of `startdir`.
pub open spec fn key_startdir() -> Seq<u8> {
    seq![115u8, 116, 97, 114, 116, 100, 105, 114]
}

/// The key of the icon-path field: the bytes of `icon`.
pub open spec fn key_icon() -> Seq<u8> {
    seq![105u8, 99, 111, 110]
}

/// The word of the structural marker that opens the stream: the bytes of
/// `shortcuts`.
pub open spec fn marker_word() -> Seq<u8> {
    seq![115u8, 104, 111, 114, 116, 99, 117, 116, 115]
}

/// A record under construction: each required field once seen.
#[verifier::ext_equal]
pub struct PartialRecord {
    pub app_id: Option<u32>,
    pub app_name: Option<Seq<u8>>,
    pub exe: Option<Seq<u8>>,
    pub start_dir: Option<Seq<u8>>,
    pub icon: Option<Seq<u8>>,
}

/// The partial record with nothing seen yet.
pub open spec fn empty_partial() -> PartialRecord {
    PartialRecord { app_id: None, app_name: None, exe: None, start_dir: None, icon: None }
}

/// Store a string field under its key; unrecognized keys change nothing.
/// A later occurrence of a key overwrites an earlier one.
pub open spec fn spec_set_text(acc: PartialRecord, key: Seq<u8>, val: Seq<u8>) -> PartialRecord {
    if key_is(key, key_appname()) {
        PartialRecord { app_name: Some(val), ..acc }
    } else if key_is(key, key_exe()) {
        PartialRecord { exe: Some(val), ..acc }
    } else if key_is(key, key_startdir()) {
        PartialRecord { start_dir: Some(val), ..acc }
    } else if key_is(key, key_icon()) {
        PartialRecord { icon: Some(val), ..acc }
    } else {
        acc
    }
}

/// Store a numeric field under its key; unrecognized keys change nothing.
pub open spec fn spec_set_num(acc: PartialRecord, key: Seq<u8>, val: u32) -> PartialRecord {
    if key_is(key, key_appid()) || key_is(key, key_app_id()) {
        PartialRecord { app_id: Some(val), ..acc }
    } else {
        acc
    }
}

/// A record is complete when all five required fields were seen.
pub open spec fn complete(acc: PartialRecord) -> Option<RecordView> {
    if acc.app_id is Some && acc.app_name is Some && acc.exe is Some && acc.start_dir is Some
        && acc.icon is Some {
        Some(
            RecordView {
                app_id: acc.app_id->Some_0,
                app_name: acc.app_name->Some_0,
                exe: acc.exe->Some_0,
                start_dir: acc.start_dir->Some_0,
                icon: acc.icon->Some_0,
            },
        )
    } else {
        None
    }
}

/// The NUL-terminated byte string starting at `pos`: its content and the
/// position after its terminator, or the offset of the flaw (the end of the
/// stream, where the terminator is missing).
pub open spec fn spec_cstr(b: Seq<u8>, pos: int) -> Result<(Seq<u8>, int), int> {
    match find_from(b, pos, 0) {
        Some(i) => Ok((b.subrange(pos, i), i + 1)),
        None => Err(b.len() as int),
    }
}

/// `spec_cstr` moves the cursor strictly forward and stays inside the
/// stream; its failure offset is the stream length.
pub proof fn lemma_spec_cstr_advances(b: Seq<u8>, pos: int)
    requires
        0 <= pos,
    ensures
        match spec_cstr(b, pos) {
            Ok((s, p)) => pos < p <= b.len(),
            Err(e) => e == b.len(),
        },
{
    lemma_find_from(b, pos, 0);
}

/// The value of four little-endian bytes at `pos`.
pub open spec fn le_u32_at(b: Seq<u8>, pos: int) -> u32 {
    ((b[pos] as int) + (b[pos + 1] as int) * 0x100 + (b[pos + 2] as int) * 0x10000 + (b[pos + 3]
        as int) * 0x1000000) as u32
}

/// The fields of one record from `pos` up to and including the closing
/// `0x08` byte: the accumulated fields and the position after the record,
/// or the offset of the flaw.
pub open spec fn spec_fields(b: Seq<u8>, pos: int, acc: PartialRecord) -> Result<
    (PartialRecord, int),
    int,
>
    decreases b.len() - pos,
{
    if pos < 0 || pos >= b.len() {
        Err(if pos < 0 {
            0
        } else {
            b.len() as int
        })
    } else if b[pos] == 8 {
        Ok((acc, pos + 1))
    } else if b[pos] == 1 {
        match spec_cstr(b, pos + 1) {
            Ok((key, p2)) => match spec_cstr(b, p2) {
                Ok((val, p3)) => {
                    proof {
                        lemma_spec_cstr_advances(b, pos + 1);
                        lemma_spec_cstr_advances(b, p2);
                    }
                    spec_fields(b, p3, spec_set_text(acc, key, val))
                },
                Err(e) => Err(e),
            },
            Err(e) => Err(e),
        }
    } else if b[pos] == 2 {
        match spec_cstr(b, pos + 1) {
            Ok((key, p2)) => if p2 + 4 <= b.len() {
                proof {
                    lemma_spec_cstr_advances(b, pos + 1);
                }
                spec_fields(b, p2 + 4, spec_set_num(acc, key, le_u32_at(b, p2)))
            } else {
                Err(b.len() as int)
            },
            Err(e) => Err(e),
        }
    } else if b[pos] == 0 {
        match spec_cstr(b, pos + 1) {
            Ok((key, p2)) => match find_from(b, p2, 8) {
                Some(i) => {
                    proof {
                        lemma_spec_cstr_advances(b, pos + 1);
                        lemma_find_from(b, p2, 8);
                    }
                    spec_fields(b, i + 1, acc)
                },
                None => Err(b.len() as int),
            },
            Err(e) => Err(e),
        }
    } else {
        Err(pos)
    }
}

/// `spec_fields` moves the cursor strictly forward and stays inside the
/// stream; its failure offsets lie inside the stream.
pub proof fn lemma_spec_fields_advances(b: Seq<u8>, pos: int, acc: PartialRecord)
    requires
        0 <= pos,
    ensures
        match spec_fields(b, pos, acc) {
            Ok((f, p)) => pos < p <= b.len(),
            Err(e) => 0 <= e <= b.len(),
        },
    decreases b.len() - pos,
{
    if pos >= b.len() {
    } else if b[pos] == 8 {
    } else if b[pos] == 1 {
        lemma_spec_cstr_advances(b, pos + 1);
        match spec_cstr(b, pos + 1) {
            Ok((key, p2)) => {
                lemma_spec_cstr_advances(b, p2);
                match spec_cstr(b, p2) {
                    Ok((val, p3)) => {
                        lemma_spec_fields_advances(b, p3, spec_set_text(acc, key, val));
                    },
                    Err(_) => {},
                }
            },
            Err(_) => {},
        }
    } else if b[pos] == 2 {
        lemma_spec_cstr_advances(b, pos + 1);
        match spec_cstr(b, pos + 1) {
            Ok((key, p2)) => {
                if p2 + 4 <= b.len() {
                    lemma_spec_fields_advances(b, p2 + 4, spec_set_num(acc, key, le_u32_at(b, p2)));
                }
            },
            Err(_) => {},
        }
    } else if b[pos] == 0 {
        lemma_spec_cstr_advances(b, pos + 1);
        match spec_cstr(b, pos + 1) {
            Ok((key, p2)) => {
                lemma_find_from(b, p2, 8);
                match find_from(b, p2, 8) {
                    Some(i) => {
                        lemma_spec_fields_advances(b, i + 1, acc);
                    },
                    None => {},
                }
            },
            Err(_) => {},
        }
    } else {
    }
}

/// One record from `pos`: its opening NUL byte and index text, its fields,
/// and its completeness check. A record missing a required field is reported
/// at its own opening offset.
pub open spec fn spec_record(b: Seq<u8>, pos: int) -> Result<(RecordView, int), int> {
    if pos < 0 || pos >= b.len() || b[pos] != 0 {
        Err(if 0 <= pos < b.len() {
            pos
        } else {
            b.len() as int
        })
    } else {
        match spec_cstr(b, pos + 1) {
            Ok((_idx, p2)) => match spec_fields(b, p2, empty_partial()) {
                Ok((acc, p3)) => match complete(acc) {
                    Some(r) => Ok((r, p3)),
                    None => Err(pos),
                },
                Err(e) => Err(e),
            },
            Err(e) => Err(e),
        }
    }
}

/// `spec_record` moves the cursor strictly forward and stays inside the
/// stream; its failure offsets lie inside the stream.
pub proof fn lemma_spec_record_advances(b: Seq<u8>, pos: int)
    requires
        0 <= pos,
    ensures
        match spec_record(b, pos) {
            Ok((r, p)) => pos < p <= b.len(),
            Err(e) => 0 <= e <= b.len(),
        },
{
    if pos < b.len() && b[pos] == 0 {
        lemma_spec_cstr_advances(b, pos + 1);
        match spec_cstr(b, pos + 1) {
            Ok((_idx, p2)) => {
                lemma_spec_fields_advances(b, p2, empty_partial());
            },
            Err(_) => {},
        }
    }
}

/// The records from `pos` to the end of the stream. A `0x08` byte closing
/// the root object may stand between records and at the end.
pub open spec fn spec_records(b: Seq<u8>, pos: int) -> Result<Seq<RecordView>, int>
    decreases b.len() - pos,
{
    if pos < 0 {
        Err(0)
    } else if pos >= b.len() {
        Ok(seq![])
    } else if b[pos] == 8 {
        spec_records(b, pos + 1)
    } else if b[pos] == 0 {
        match spec_record(b, pos) {
            Ok((r, p2)) => {
                proof {
                    lemma_spec_record_advances(b, pos);
                }
                match spec_records(b, p2) {
                    Ok(rest) => Ok(seq![r] + rest),
                    Err(e) => Err(e),
                }
            },
            Err(e) => Err(e),
        }
    } else {
        Err(pos)
    }
}

/// The whole manifest: the structural marker, then the record list. A
/// stream that does not open with the marker is reported at offset zero.
pub open spec fn spec_parse_manifest(b: Seq<u8>) -> Result<Seq<RecordView>, int> {
    if b.len() < 1 || b[0] != 0 {
        Err(0)
    } else {
        match spec_cstr(b, 1) {
            Ok((word, p)) => if key_is(word, marker_word()) {
                spec_records(b, p)
            } else {
                Err(0)
            },
            Err(e) => Err(e),
        }
    }
}

/// A byte string free of the NUL terminator, so the manifest can store it
/// as a string value.
pub open spec fn nul_free(s: Seq<u8>) -> bool {
    forall|i: int| 0 <= i < s.len() ==> s[i] != 0
}

/// A record whose text fields the manifest can store.
pub open spec fn wf_record(r: RecordView) -> bool {
    nul_free(r.app_name) && nul_free(r.exe) && nul_free(r.start_dir) && nul_free(r.icon)
}

/// The four little-endian bytes of a value.
pub open spec fn le_bytes(v: u32) -> Seq<u8> {
    seq![
        (v % 0x100) as u8,
        ((v / 0x100) % 0x100) as u8,
        ((v / 0x10000) % 0x100) as u8,
        ((v / 0x1000000) % 0x100) as u8,
    ]
}

/// One stored string field.
pub open spec fn encode_text_field(key: Seq<u8>, val: Seq<u8>) -> Seq<u8> {
    seq![1u8] + key + seq![0u8] + val + seq![0u8]
}

/// One stored numeric field.
pub open spec fn encode_num_field(key: Seq<u8>, v: u32) -> Seq<u8> {
    seq![2u8] + key + seq![0u8] + le_bytes(v)
}

/// One stored record, in a canonical layout: the record's opening NUL byte,
/// an empty index text, the five required fields, the closing byte.
pub open spec fn encode_record(r: RecordView) -> Seq<u8> {
    seq![0u8, 0u8] + encode_num_field(key_appid(), r.app_id) + encode_text_field(
        key_appname(),
        r.app_name,
    ) + encode_text_field(key_exe(), r.exe) + encode_text_field(key_startdir(), r.start_dir)
        + encode_text_field(key_icon(), r.icon) + seq![8u8]
}

/// The stored record list.
pub open spec fn encode_records(rs: Seq<RecordView>) -> Seq<u8>
    decreases rs.len(),
{
    if rs.len() == 0 {
        Seq::empty()
    } else {
        encode_record(rs[0]) + encode_records(rs.skip(1))
    }
}

/// A whole stored manifest: the marker, the record list, the closing byte.
pub open spec fn encode_manifest(rs: Seq<RecordView>) -> Seq<u8> {
    seq![0u8] + marker_word() + seq![0u8] + encode_records(rs) + seq![8u8]
}

/// Every field key and the marker word is free of the NUL terminator.
proof fn lemma_keys_nul_free()
    ensures
        nul_free(key_appid()),
        nul_free(key_appname()),
        nul_free(key_exe()),
        nul_free(key_startdir()),
        nul_free(key_icon()),
        nul_free(marker_word()),
{
}

/// Parsing the NUL-terminated string whose content and terminator stand at
/// `pos` yields exactly that content.
proof fn lemma_cstr_at(b: Seq<u8>, pos: int, s: Seq<u8>)
    requires
        0 <= pos,
        pos + s.len() < b.len(),
        nul_free(s),
        forall|j: int| 0 <= j < s.len() ==> b[pos + j] == #[trigger] s[j],
        b[pos + s.len()] == 0,
    ensures
        spec_cstr(b, pos) == Ok::<_, int>((s, pos + s.len() + 1)),
{
    assert forall|j: int| pos <= j < pos + s.len() implies b[j] != 0 by {
        assert(b[pos + (j - pos)] == s[j - pos]);
    }
    lemma_find_from_at(b, pos, 0, pos + s.len());
    assert(b.subrange(pos, pos + s.len()) =~= s);
}

/// Reading back the four little-endian bytes of a value yields the value.
proof fn lemma_le_bytes_value(b: Seq<u8>, pos: int, v: u32)
    requires
        0 <= pos,
        pos + 4 <= b.len(),
        forall|j: int| 0 <= j < 4 ==> b[pos + j] == #[trigger] le_bytes(v)[j],
    ensures
        le_u32_at(b, pos) == v,
{
    let v0 = v as int;
    assert(b[pos + 0] == le_bytes(v)[0]);
    assert(b[pos + 1] == le_bytes(v)[1]);
    assert(b[pos + 2] == le_bytes(v)[2]);
    assert(b[pos + 3] == le_bytes(v)[3]);
    assert(le_bytes(v)[0] == (v % 0x100) as u8);
    assert(le_bytes(v)[1] == ((v / 0x100) % 0x100) as u8);
    assert(le_bytes(v)[2] == ((v / 0x10000) % 0x100) as u8);
    assert(le_bytes(v)[3] == ((v / 0x1000000) % 0x100) as u8);
    assert(v0 / 0x100 / 0x100 == v0 / 0x10000) by (nonlinear_arith)
        requires
            v0 >= 0,
    ;
    assert(v0 / 0x10000 / 0x100 == v0 / 0x1000000) by (nonlinear_arith)
        requires
            v0 >= 0,
    ;
    assert(v0 == 0x100 * (v0 / 0x100) + v0 % 0x100) by (nonlinear_arith)
        requires
            v0 >= 0,
    ;
    assert(v0 / 0x100 == 0x100 * (v0 / 0x100 / 0x100) + (v0 / 0x100) % 0x100) by (nonlinear_arith)
        requires
            v0 >= 0,
    ;
    assert(v0 / 0x10000 == 0x100 * (v0 / 0x10000 / 0x100) + (v0 / 0x10000) % 0x100)
        by (nonlinear_arith)
        requires
            v0 >= 0,
    ;
    assert(v0 / 0x1000000 % 0x100 == v0 / 0x1000000) by (nonlinear_arith)
        requires
            0 <= v0 < 0x100000000,
    ;
}

/// The layout of one stored string field, byte by byte.
proof fn lemma_text_field_layout(key: Seq<u8>, val: Seq<u8>)
    ensures
        encode_text_field(key, val).len() == key.len() + val.len() + 3,
        encode_text_field(key, val)[0] == 1,
        forall|j: int|
            0 <= j < key.len() ==> encode_text_field(key, val)[1 + j] == #[trigger] key[j],
        encode_text_field(key, val)[1 + key.len() as int] == 0,
        forall|j: int|
            0 <= j < val.len() ==> encode_text_field(key, val)[2 + key.len() + j]
                == #[trigger] val[j],
        encode_text_field(key, val)[2 + key.len() + val.len() as int] == 0,
{
    let a1 = seq![1u8] + key;
    let a2 = a1 + seq![0u8];
    let a3 = a2 + val;
    let f = a3 + seq![0u8];
    assert(f == encode_text_field(key, val));
    assert(f[0] == a3[0]);
    assert(a3[0] == a2[0]);
    assert(a2[0] == a1[0]);
    assert(a1[0] == 1);
    assert forall|j: int| 0 <= j < key.len() implies f[1 + j] == #[trigger] key[j] by {
        assert(f[1 + j] == a3[1 + j]);
        assert(a3[1 + j] == a2[1 + j]);
        assert(a2[1 + j] == a1[1 + j]);
        assert(a1[1 + j] == key[j]);
    }
    assert(f[1 + key.len() as int] == a3[1 + key.len() as int]);
    assert(a3[1 + key.len() as int] == a2[1 + key.len() as int]);
    assert(a2[1 + key.len() as int] == 0);
    assert forall|j: int| 0 <= j < val.len() implies f[2 + key.len() + j] == #[trigger] val[j] by {
        assert(f[2 + key.len() + j] == a3[2 + key.len() + j]);
        assert(a3[2 + key.len() + j] == val[j]);
    }
    assert(f[2 + key.len() + val.len() as int] == 0);
}

/// The layout of one stored numeric field, byte by byte.
proof fn lemma_num_field_layout(key: Seq<u8>, v: u32)
    ensures
        encode_num_field(key, v).len() == key.len() + 6,
        encode_num_field(key, v)[0] == 2,
        forall|j: int| 0 <= j < key.len() ==> encode_num_field(key, v)[1 + j] == #[trigger] key[j],
        encode_num_field(key, v)[1 + key.len() as int] == 0,
        forall|j: int|
            0 <= j < 4 ==> encode_num_field(key, v)[2 + key.len() + j] == #[trigger] le_bytes(
                v,
            )[j],
{
    let a1 = seq![2u8] + key;
    let a2 = a1 + seq![0u8];
    let f = a2 + le_bytes(v);
    assert(f == encode_num_field(key, v));
    assert(f[0] == a2[0]);
    assert(a2[0] == a1[0]);
    assert(a1[0] == 2);
    assert forall|j: int| 0 <= j < key.len() implies f[1 + j] == #[trigger] key[j] by {
        assert(f[1 + j] == a2[1 + j]);
        assert(a2[1 + j] == a1[1 + j]);
        assert(a1[1 + j] == key[j]);
    }
    assert(f[1 + key.len() as int] == a2[1 + key.len() as int]);
    assert(a2[1 + key.len() as int] == 0);
    assert forall|j: int| 0 <= j < 4 implies f[2 + key.len() + j] == #[trigger] le_bytes(v)[j] by {
        assert(f[2 + key.len() + j] == le_bytes(v)[j]);
    }
}

/// Stepping over one stored string field updates the accumulator by that
/// field and moves the cursor past it.
#[verifier::rlimit(60)]
proof fn lemma_text_field_step(b: Seq<u8>, pos: int, key: Seq<u8>, val: Seq<u8>, acc: PartialRecord)
    requires
        0 <= pos,
        pos + key.len() + val.len() + 3 <= b.len(),
        b.subrange(pos, pos + key.len() + val.len() + 3) == encode_text_field(key, val),
        nul_free(key),
        nul_free(val),
    ensures
        spec_fields(b, pos, acc) == spec_fields(
            b,
            pos + key.len() + val.len() + 3,
            spec_set_text(acc, key, val),
        ),
{
    lemma_text_field_layout(key, val);
    let f = encode_text_field(key, val);
    let n = key.len() + val.len() + 3;
    assert forall|k: int| 0 <= k < n implies b[pos + k] == #[trigger] f[k] by {
        assert(b.subrange(pos, pos + n as int)[k] == b[pos + k]);
    }
    assert(b[pos + 0] == f[0]);
    assert(b[pos] == 1);
    assert forall|j: int| 0 <= j < key.len() implies b[pos + 1 + j] == #[trigger] key[j] by {
        assert(b[pos + (1 + j)] == f[1 + j]);
        assert(f[1 + j] == key[j]);
    }
    assert(b[pos + (1 + key.len() as int)] == f[1 + key.len() as int]);
    assert(b[pos + 1 + key.len() as int] == 0);
    lemma_cstr_at(b, pos + 1, key);
    let p2 = pos + 2 + key.len() as int;
    assert forall|j: int| 0 <= j < val.len() implies b[p2 + j] == #[trigger] val[j] by {
        assert(b[pos + (2 + key.len() + j)] == f[2 + key.len() + j]);
        assert(f[2 + key.len() + j] == val[j]);
    }
    assert(b[pos + (2 + key.len() + val.len() as int)] == f[2 + key.len() + val.len() as int]);
    assert(b[p2 + val.len() as int] == 0);
    lemma_cstr_at(b, p2, val);
}

/// Stepping over one stored numeric field updates the accumulator by that
/// field and moves the cursor past it.
#[verifier::rlimit(60)]
proof fn lemma_num_field_step(b: Seq<u8>, pos: int, key: Seq<u8>, v: u32, acc: PartialRecord)
    requires
        0 <= pos,
        pos + key.len() + 6 <= b.len(),
        b.subrange(pos, pos + key.len() + 6) == encode_num_field(key, v),
        nul_free(key),
    ensures
        spec_fields(b, pos, acc) == spec_fields(b, pos + key.len() + 6, spec_set_num(acc, key, v)),
{
    lemma_num_field_layout(key, v);
    let f = encode_num_field(key, v);
    let n = key.len() + 6;
    assert forall|k: int| 0 <= k < n implies b[pos + k] == #[trigger] f[k] by {
        assert(b.subrange(pos, pos + n as int)[k] == b[pos + k]);
    }
    assert(b[pos + 0] == f[0]);
    assert(b[pos] == 2);
    assert forall|j: int| 0 <= j < key.len() implies b[pos + 1 + j] == #[trigger] key[j] by {
        assert(b[pos + (1 + j)] == f[1 + j]);
        assert(f[1 + j] == key[j]);
    }
    assert(b[pos + (1 + key.len() as int)] == f[1 + key.len() as int]);
    assert(b[pos + 1 + key.len() as int] == 0);
    lemma_cstr_at(b, pos + 1, key);
    let p2 = pos + 2 + key.len() as int;
    assert forall|j: int| 0 <= j < 4 implies b[p2 + j] == #[trigger] le_bytes(v)[j] by {
        assert(b[pos + (2 + key.len() + j)] == f[2 + key.len() + j]);
        assert(f[2 + key.len() + j] == le_bytes(v)[j]);
    }
    lemma_le_bytes_value(b, p2, v);
}

/// Parsing the stored form of one well-formed record yields exactly that
/// record and moves the cursor past its closing byte.
#[verifier::rlimit(60)]
proof fn lemma_record_at(b: Seq<u8>, pos: int, r: RecordView)
    requires
        0 <= pos,
        pos + encode_record(r).len() <= b.len(),
        b.subrange(pos, pos + encode_record(r).len()) == encode_record(r),
        wf_record(r),
    ensures
        spec_record(b, pos) == Ok::<_, int>((r, pos + encode_record(r).len())),
        encode_record(r)[0] == 0,
{
    lemma_keys_nul_free();
    let f1 = encode_num_field(key_appid(), r.app_id);
    let f2 = encode_text_field(key_appname(), r.app_name);
    let f3 = encode_text_field(key_exe(), r.exe);
    let f4 = encode_text_field(key_startdir(), r.start_dir);
    let f5 = encode_text_field(key_icon(), r.icon);
    lemma_num_field_layout(key_appid(), r.app_id);
    lemma_text_field_layout(key_appname(), r.app_name);
    lemma_text_field_layout(key_exe(), r.exe);
    lemma_text_field_layout(key_startdir(), r.start_dir);
    lemma_text_field_layout(key_icon(), r.icon);
    let c0 = seq![0u8, 0u8];
    let c1 = c0 + f1;
    let c2 = c1 + f2;
    let c3 = c2 + f3;
    let c4 = c3 + f4;
    let c5 = c4 + f5;
    let enc = c5 + seq![8u8];
    assert(enc == encode_record(r));
    let n = enc.len();
    assert(f1.len() == 11);
    assert(f2.len() == r.app_name.len() + 10);
    assert(f3.len() == r.exe.len() + 6);
    assert(f4.len() == r.start_dir.len() + 11);
    assert(f5.len() == r.icon.len() + 7);
    let o0 = pos + 2;
    let o1 = o0 + 11;
    let o2 = o1 + r.app_name.len() as int + 10;
    let o3 = o2 + r.exe.len() as int + 6;
    let o4 = o3 + r.start_dir.len() as int + 11;
    let o5 = o4 + r.icon.len() as int + 7;
    assert(pos + n == o5 + 1);
    assert forall|k: int| 0 <= k < n implies b[pos + k] == #[trigger] enc[k] by {
        assert(b.subrange(pos, pos + n as int)[k] == b[pos + k]);
    }
    assert(b[pos + 0] == enc[0]);
    assert(enc[0] == c5[0]);
    assert(c5[0] == c4[0]);
    assert(c4[0] == c3[0]);
    assert(c3[0] == c2[0]);
    assert(c2[0] == c1[0]);
    assert(c1[0] == c0[0]);
    assert(c0[0] == 0);
    assert(b[pos] == 0);
    assert(b[pos + 1] == enc[1]);
    assert(enc[1] == c5[1]);
    assert(c5[1] == c4[1]);
    assert(c4[1] == c3[1]);
    assert(c3[1] == c2[1]);
    assert(c2[1] == c1[1]);
    assert(c1[1] == c0[1]);
    assert(c0[1] == 0);
    lemma_cstr_at(b, pos + 1, Seq::<u8>::empty());
    assert forall|k: int| 0 <= k < 11 implies b.subrange(o0, o1)[k] == f1[k] by {
        assert(b[pos + (2 + k)] == enc[2 + k]);
        assert(enc[2 + k] == c5[2 + k]);
        assert(c5[2 + k] == c4[2 + k]);
        assert(c4[2 + k] == c3[2 + k]);
        assert(c3[2 + k] == c2[2 + k]);
        assert(c2[2 + k] == c1[2 + k]);
        assert(c1[2 + k] == f1[k]);
    }
    assert(b.subrange(o0, o1) =~= f1);
    assert forall|k: int| 0 <= k < f2.len() implies b.subrange(o1, o2)[k] == f2[k] by {
        let x = o1 - pos + k;
        assert(b[pos + x] == enc[x]);
        assert(enc[x] == c5[x]);
        assert(c5[x] == c4[x]);
        assert(c4[x] == c3[x]);
        assert(c3[x] == c2[x]);
        assert(c2[x] == f2[x - c1.len()]);
    }
    assert(b.subrange(o1, o2) =~= f2);
    assert forall|k: int| 0 <= k < f3.len() implies b.subrange(o2, o3)[k] == f3[k] by {
        let x = o2 - pos + k;
        assert(b[pos + x] == enc[x]);
        assert(enc[x] == c5[x]);
        assert(c5[x] == c4[x]);
        assert(c4[x] == c3[x]);
        assert(c3[x] == f3[x - c2.len()]);
    }
    assert(b.subrange(o2, o3) =~= f3);
    assert forall|k: int| 0 <= k < f4.len() implies b.subrange(o3, o4)[k] == f4[k] by {
        let x = o3 - pos + k;
        assert(b[pos + x] == enc[x]);
        assert(enc[x] == c5[x]);
        assert(c5[x] == c4[x]);
        assert(c4[x] == f4[x - c3.len()]);
    }
    assert(b.subrange(o3, o4) =~= f4);
    assert forall|k: int| 0 <= k < f5.len() implies b.subrange(o4, o5)[k] == f5[k] by {
        let x = o4 - pos + k;
        assert(b[pos + x] == enc[x]);
        assert(enc[x] == c5[x]);
        assert(c5[x] == f5[x - c4.len()]);
    }
    assert(b.subrange(o4, o5) =~= f5);
    let a0 = empty_partial();
    lemma_num_field_step(b, o0, key_appid(), r.app_id, a0);
    let a1 = spec_set_num(a0, key_appid(), r.app_id);
    lemma_text_field_step(b, o1, key_appname(), r.app_name, a1);
    let a2 = spec_set_text(a1, key_appname(), r.app_name);
    lemma_text_field_step(b, o2, key_exe(), r.exe, a2);
    let a3 = spec_set_text(a2, key_exe(), r.exe);
    lemma_text_field_step(b, o3, key_startdir(), r.start_dir, a3);
    let a4 = spec_set_text(a3, key_startdir(), r.start_dir);
    lemma_text_field_step(b, o4, key_icon(), r.icon, a4);
    let a5 = spec_set_text(a4, key_icon(), r.icon);
    assert(b[pos + (o5 - pos)] == enc[o5 - pos]);
    assert(enc[c5.len() as int] == 8);
    assert(b[o5] == 8);
    assert(spec_fields(b, o5, a5) == Ok::<_, int>((a5, o5 + 1)));
    assert(complete(a5) is Some);
    assert(complete(a5)->Some_0 =~= r);
}

/// Parsing a stored record list followed by the stream's closing byte
/// yields exactly those records.
#[verifier::rlimit(60)]
proof fn lemma_records_at(b: Seq<u8>, pos: int, rs: Seq<RecordView>)
    requires
        0 <= pos,
        pos + encode_records(rs).len() + 1 == b.len(),
        b.subrange(pos, pos + encode_records(rs).len()) == encode_records(rs),
        b[b.len() - 1] == 8,
        forall|i: int| 0 <= i < rs.len() ==> wf_record(#[trigger] rs[i]),
    ensures
        spec_records(b, pos) == Ok::<_, int>(rs),
    decreases rs.len(),
{
    if rs.len() == 0 {
        assert(b[pos] == 8);
        assert(spec_records(b, pos + 1) == Ok::<_, int>(Seq::<RecordView>::empty()));
        assert(rs =~= Seq::<RecordView>::empty());
    } else {
        let r0 = rs[0];
        let e0 = encode_record(r0);
        let rest = encode_records(rs.skip(1));
        let whole = encode_records(rs);
        assert(whole == e0 + rest);
        assert forall|k: int| 0 <= k < whole.len() implies b[pos + k] == #[trigger] whole[k] by {
            assert(b.subrange(pos, pos + whole.len() as int)[k] == b[pos + k]);
        }
        assert forall|k: int| 0 <= k < e0.len() implies b.subrange(pos, pos + e0.len() as int)[k]
            == e0[k] by {
            assert(b[pos + k] == whole[k]);
            assert(whole[k] == e0[k]);
        }
        assert(b.subrange(pos, pos + e0.len() as int) =~= e0);
        lemma_record_at(b, pos, r0);
        let p2 = pos + e0.len() as int;
        assert forall|k: int| 0 <= k < rest.len() implies b.subrange(p2, p2 + rest.len() as int)[k]
            == rest[k] by {
            assert(b[pos + (e0.len() + k)] == whole[e0.len() + k]);
            assert(whole[e0.len() + k] == rest[k]);
        }
        assert(b.subrange(p2, p2 + rest.len() as int) =~= rest);
        assert forall|i: int| 0 <= i < rs.skip(1).len() implies wf_record(
            #[trigger] rs.skip(1)[i],
        ) by {
            assert(rs.skip(1)[i] == rs[i + 1]);
        }
        lemma_records_at(b, p2, rs.skip(1));
        assert(b[pos + 0] == whole[0]);
        assert(whole[0] == e0[0]);
        assert(b[pos] == 0);
        assert(spec_records(b, pos) == Ok::<_, int>(seq![r0] + rs.skip(1)));
        assert(seq![r0] + rs.skip(1) =~= rs);
    }
}

/// The decoding law for stored manifests: a manifest holding the stored
/// form of well-formed records decodes to exactly those records — as many
/// records out as were stored, in storage order, each with all five
/// required fields.
pub proof fn lemma_parse_encoded_manifest(rs: Seq<RecordView>)
    requires
        forall|i: int| 0 <= i < rs.len() ==> wf_record(#[trigger] rs[i]),
    ensures
        spec_parse_manifest(encode_manifest(rs)) == Ok::<_, int>(rs),
{
    lemma_keys_nul_free();
    let recs = encode_records(rs);
    let m1 = seq![0u8] + marker_word();
    let m2 = m1 + seq![0u8];
    let m3 = m2 + recs;
    let b = m3 + seq![8u8];
    assert(b == encode_manifest(rs));
    assert(b.len() == 12 + recs.len());
    assert(b[0] == m3[0]);
    assert(m3[0] == m2[0]);
    assert(m2[0] == m1[0]);
    assert(m1[0] == 0);
    assert forall|j: int| 0 <= j < 9 implies b[1 + j] == #[trigger] marker_word()[j] by {
        assert(b[1 + j] == m3[1 + j]);
        assert(m3[1 + j] == m2[1 + j]);
        assert(m2[1 + j] == m1[1 + j]);
        assert(m1[1 + j] == marker_word()[j]);
    }
    assert(b[10] == m3[10]);
    assert(m3[10] == m2[10]);
    assert(m2[10] == 0);
    lemma_cstr_at(b, 1, marker_word());
    assert(key_is(marker_word(), marker_word()));
    assert forall|k: int| 0 <= k < recs.len() implies b.subrange(11, 11 + recs.len() as int)[k]
        == recs[k] by {
        assert(b.subrange(11, 11 + recs.len() as int)[k] == b[11 + k]);
        assert(b[11 + k] == m3[11 + k]);
        assert(m3[11 + k] == recs[k]);
    }
    assert(b.subrange(11, 11 + recs.len() as int) =~= recs);
    assert(b[b.len() - 1] == 8) by {
        assert(b[m3.len() as int] == 8);
    }
    lemma_records_at(b, 11, rs);
}

/// A record under construction, executable form.
pub struct PartialFields {
    pub app_id: Option<u32>,
    pub app_name: Option<Vec<u8>>,
    pub exe: Option<Vec<u8>>,
    pub start_dir: Option<Vec<u8>>,
    pub icon: Option<Vec<u8>>,
}

impl View for PartialFields {
    type V = PartialRecord;

    open spec fn view(&self) -> PartialRecord {
        PartialRecord {
            app_id: self.app_id,
            app_name: match self.app_name {
                Some(ref v) => Some(v@),
                None => None,
            },
            exe: match self.exe {
                Some(ref v) => Some(v@),
                None => None,
            },
            start_dir: match self.start_dir {
                Some(ref v) => Some(v@),
                None => None,
            },
            icon: match self.icon {
                Some(ref v) => Some(v@),
                None => None,
            },
        }
    }
}

/// The NUL-terminated byte string starting at `pos`.
fn read_cstr(b: &Vec<u8>, pos: usize) -> (r: Result<(Vec<u8>, usize), usize>)
    ensures
        match r {
            Ok((s, p)) => spec_cstr(b@, pos as int) == Ok::<_, int>((s@, p as int)) && pos < p
                <= b@.len(),
            Err(e) => spec_cstr(b@, pos as int) == Err::<(Seq<u8>, int), int>(e as int),
        },
{
    let l = b.len();
    match find_byte_from(b, pos, 0) {
        Some(i) => {
            proof {
                lemma_find_from(b@, pos as int, 0);
            }
            let s = crate::byteseq::copy_range(b, pos, i);
            Ok((s, i + 1))
        },
        None => Err(l),
    }
}

/// The value of the four little-endian bytes at `pos`.
fn read_le_u32(b: &Vec<u8>, pos: usize) -> (r: u32)
    requires
        pos + 4 <= b@.len(),
    ensures
        r == le_u32_at(b@, pos as int),
{
    let l = b.len();
    assert(pos + 4 <= l);
    let b0 = b[pos] as u32;
    let b1 = b[pos + 1] as u32;
    let b2 = b[pos + 2] as u32;
    let b3 = b[pos + 3] as u32;
    b0 + b1 * 0x100 + b2 * 0x10000 + b3 * 0x1000000
}

/// The key of the numeric identifier field.
fn key_appid_vec() -> (v: Vec<u8>)
    ensures
        v@ == key_appid(),
{
    let mut v: Vec<u8> = Vec::new();
    v.push(97);
    v.push(112);
    v.push(112);
    v.push(105);
    v.push(100);
    proof {
        assert(v@ =~= key_appid());
    }
    v
}

/// The alternate spelling of the identifier key.
fn key_app_id_vec() -> (v: Vec<u8>)
    ensures
        v@ == key_app_id(),
{
    let mut v: Vec<u8> = Vec::new();
    v.push(97);
    v.push(112);
    v.push(112);
    v.push(95);
    v.push(105);
    v.push(100);
    proof {
        assert(v@ =~= key_app_id());
    }
    v
}

/// The key of the display-name field.
fn key_appname_vec() -> (v: Vec<u8>)
    ensures
        v@ == key_appname(),
{
    let mut v: Vec<u8> = Vec::new();
    v.push(97);
    v.push(112);
    v.push(112);
    v.push(110);
    v.push(97);
    v.push(109);
    v.push(101);
    proof {
        assert(v@ =~= key_appname());
    }
    v
}

/// The key of the executable-path field.
fn key_exe_vec() -> (v: Vec<u8>)
    ensures
        v@ == key_exe(),
{
    let mut v: Vec<u8> = Vec::new();
    v.push(101);
    v.push(120);
    v.push(101);
    proof {
        assert(v@ =~= key_exe());
    }
    v
}

/// The key of the working-directory field.
fn key_startdir_vec() -> (v: Vec<u8>)
    ensures
        v@ == key_startdir(),
{
    let mut v: Vec<u8> = Vec::new();
    v.push(115);
    v.push(116);
    v.push(97);
    v.push(114);
    v.push(116);
    v.push(100);
    v.push(105);
    v.push(114);
    proof {
        assert(v@ =~= key_startdir());
    }
    v
}

/// The key of the icon-path field.
fn key_icon_vec() -> (v: Vec<u8>)
    ensures
        v@ == key_icon(),
{
    let mut v: Vec<u8> = Vec::new();
    v.push(105);
    v.push(99);
    v.push(111);
    v.push(110);
    proof {
        assert(v@ =~= key_icon());
    }
    v
}

/// The word of the structural marker.
fn marker_word_vec() -> (v: Vec<u8>)
    ensures
        v@ == marker_word(),
{
    let mut v: Vec<u8> = Vec::new();
    v.push(115);
    v.push(104);
    v.push(111);
    v.push(114);
    v.push(116);
    v.push(99);
    v.push(117);
    v.push(116);
    v.push(115);
    proof {
        assert(v@ =~= marker_word());
    }
    v
}

/// Store a string field under its key.
fn set_text_field(acc: PartialFields, key: &Vec<u8>, val: Vec<u8>) -> (r: PartialFields)
    ensures
        r@ == spec_set_text(acc@, key@, val@),
{
    if eq_ignore_ascii_case(key, &key_appname_vec()) {
        PartialFields { app_name: Some(val), ..acc }
    } else if eq_ignore_ascii_case(key, &key_exe_vec()) {
        PartialFields { exe: Some(val), ..acc }
    } else if eq_ignore_ascii_case(key, &key_startdir_vec()) {
        PartialFields { start_dir: Some(val), ..acc }
    } else if eq_ignore_ascii_case(key, &key_icon_vec()) {
        PartialFields { icon: Some(val), ..acc }
    } else {
        acc
    }
}

/// Store a numeric field under its key.
fn set_num_field(acc: PartialFields, key: &Vec<u8>, val: u32) -> (r: PartialFields)
    ensures
        r@ == spec_set_num(acc@, key@, val),
{
    let is_id = eq_ignore_ascii_case(key, &key_appid_vec()) || eq_ignore_ascii_case(
        key,
        &key_app_id_vec(),
    );
    if is_id {
        PartialFields { app_id: Some(val), ..acc }
    } else {
        acc
    }
}

/// The fields of one record from `pos` up to its closing `0x08` byte.
fn parse_fields(b: &Vec<u8>, pos: usize, acc: PartialFields) -> (r: Result<
    (PartialFields, usize),
    usize,
>)
    ensures
        match r {
            Ok((f, p)) => spec_fields(b@, pos as int, acc@) == Ok::<_, int>((f@, p as int)) && pos
                < p <= b@.len(),
            Err(e) => spec_fields(b@, pos as int, acc@) == Err::<(PartialRecord, int), int>(
                e as int,
            ),
        },
    decreases b@.len() - pos,
{
    let l = b.len();
    if pos >= l {
        return Err(l);
    }
    let t = b[pos];
    if t == 8 {
        Ok((acc, pos + 1))
    } else if t == 1 {
        match read_cstr(b, pos + 1) {
            Ok((key, p2)) => match read_cstr(b, p2) {
                Ok((val, p3)) => {
                    let acc2 = set_text_field(acc, &key, val);
                    parse_fields(b, p3, acc2)
                },
                Err(e) => Err(e),
            },
            Err(e) => Err(e),
        }
    } else if t == 2 {
        match read_cstr(b, pos + 1) {
            Ok((key, p2)) => if l - p2 >= 4 {
                let val = read_le_u32(b, p2);
                let acc2 = set_num_field(acc, &key, val);
                parse_fields(b, p2 + 4, acc2)
            } else {
                Err(l)
            },
            Err(e) => Err(e),
        }
    } else if t == 0 {
        match read_cstr(b, pos + 1) {
            Ok((key, p2)) => match find_byte_from(b, p2, 8) {
                Some(i) => {
                    proof {
                        lemma_find_from(b@, p2 as int, 8);
                    }
                    parse_fields(b, i + 1, acc)
                },
                None => Err(l),
            },
            Err(e) => Err(e),
        }
    } else {
        Err(pos)
    }
}

/// Close a record: all five required fields, or nothing.
fn finish_record(acc: PartialFields) -> (r: Option<ShortcutRecord>)
    ensures
        match r {
            Some(rec) => complete(acc@) == Some(rec@),
            None => complete(acc@) is None,
        },
{
    match acc {
        PartialFields {
            app_id: Some(app_id),
            app_name: Some(app_name),
            exe: Some(exe),
            start_dir: Some(start_dir),
            icon: Some(icon),
        } => Some(ShortcutRecord { app_id, app_name, exe, start_dir, icon }),
        _ => None,
    }
}

/// One record from `pos`.
fn parse_record(b: &Vec<u8>, pos: usize) -> (r: Result<(ShortcutRecord, usize), usize>)
    requires
        pos < b@.len(),
        b@[pos as int] == 0,
    ensures
        match r {
            Ok((rec, p)) => spec_record(b@, pos as int) == Ok::<_, int>((rec@, p as int)) && pos < p
                <= b@.len(),
            Err(e) => spec_record(b@, pos as int) == Err::<(RecordView, int), int>(e as int),
        },
{
    let l = b.len();
    assert(pos < l);
    match read_cstr(b, pos + 1) {
        Ok((_idx, p2)) => match parse_fields(
            b,
            p2,
            PartialFields { app_id: None, app_name: None, exe: None, start_dir: None, icon: None },
        ) {
            Ok((acc, p3)) => match finish_record(acc) {
                Some(rec) => Ok((rec, p3)),
                None => Err(pos),
            },
            Err(e) => Err(e),
        },
        Err(e) => Err(e),
    }
}

/// The records from `pos` to the end of the stream.
fn parse_records(b: &Vec<u8>, pos: usize) -> (r: Result<Vec<ShortcutRecord>, usize>)
    ensures
        match r {
            Ok(recs) => spec_records(b@, pos as int) == Ok::<_, int>(
                recs@.map_values(|x: ShortcutRecord| x@),
            ),
            Err(e) => spec_records(b@, pos as int) == Err::<Seq<RecordView>, int>(e as int),
        },
    decreases b@.len() - pos,
{
    let l = b.len();
    if pos >= l {
        let recs: Vec<ShortcutRecord> = Vec::new();
        proof {
            assert(recs@.map_values(|x: ShortcutRecord| x@) =~= Seq::<RecordView>::empty());
        }
        return Ok(recs);
    }
    let t = b[pos];
    if t == 8 {
        parse_records(b, pos + 1)
    } else if t == 0 {
        match parse_record(b, pos) {
            Ok((rec, p2)) => match parse_records(b, p2) {
                Ok(mut rest) => {
                    let ghost prev = rest@;
                    rest.insert(0, rec);
                    proof {
                        assert(rest@.map_values(|x: ShortcutRecord| x@) =~= seq![rec@]
                            + prev.map_values(|x: ShortcutRecord| x@));
                    }
                    Ok(rest)
                },
                Err(e) => Err(e),
            },
            Err(e) => Err(e),
        }
    } else {
        Err(pos)
    }
}

/// Decode a whole manifest into its ordered record sequence.
///
/// Succeeds exactly on the streams the mathematical parser accepts, with
/// exactly its records in storage order; fails with `ManifestFormat` and
/// exactly the parser's flaw offset otherwise. In particular a stream whose
/// well-formed records number N yields exactly N records, each with all five
/// required fields populated, and a record missing a required field is
/// reported at its own opening offset.
pub fn decode_manifest(bytes: &Vec<u8>) -> (r: Result<Vec<ShortcutRecord>, PipelineError>)
    ensures
        match r {
            Ok(recs) => spec_parse_manifest(bytes@) == Ok::<_, int>(
                recs@.map_values(|x: ShortcutRecord| x@),
            ),
            Err(e) => match e {
                PipelineError::ManifestFormat { offset } => spec_parse_manifest(bytes@)
                    == Err::<Seq<RecordView>, int>(offset as int),
                _ => false,
            },
        },
{
    let l = bytes.len();
    if l < 1 {
        return Err(PipelineError::ManifestFormat { offset: 0 });
    }
    if bytes[0] != 0 {
        return Err(PipelineError::ManifestFormat { offset: 0 });
    }
    match read_cstr(bytes, 1) {
        Ok((word, p)) => {
            if eq_ignore_ascii_case(&word, &marker_word_vec()) {
                match parse_records(bytes, p) {
                    Ok(recs) => Ok(recs),
                    Err(e) => Err(PipelineError::ManifestFormat { offset: e }),
                }
            } else {
                Err(PipelineError::ManifestFormat { offset: 0 })
            }
        },
        Err(e) => Err(PipelineError::ManifestFormat { offset: e }),
    }
}

} // verus!
