//! Breakpad `.sym` text format: `MODULE os arch id name` followed by
//! `FUNC [m] address size param_size name` and `PUBLIC [m] address
//! param_size name` records. The whole parse is mirrored at the spec level:
//! the returned id is the `MODULE` line's id, and the records are exactly
//! the address-sorted, size-approximated `FUNC`/`PUBLIC` records of the
//! input bytes.

use crate::debug_id::{
    debug_id_of_bytes, hex_seq_val, is_hex_byte, lemma_hex_seq_val_range, lemma_pow16_monotone,
    pow16, valid_breakpad_bytes, DebugId,
};
use crate::error::{Error, FileKind};
use crate::json::{lemma_pow10_pos, pow10};
use crate::shared::{FilePath, InlineStackFrame};
use crate::symbol_map::{intern_budget_from, record_intern_cost, sym_sorted, FramesSource, SymbolRecord};
use vstd::prelude::*;
use vstd::utf8::{encode_utf8, valid_utf8};

verus! {

broadcast use vstd::std_specs::vec::group_vec_axioms;

/// The file starts with `MODULE `.
pub open spec fn is_breakpad_bytes(b: Seq<u8>) -> bool {
    &&& b.len() >= 7
    &&& b[0] == 77
    &&& b[1] == 79
    &&& b[2] == 68
    &&& b[3] == 85
    &&& b[4] == 76
    &&& b[5] == 69
    &&& b[6] == 32
}

/// Whether the bytes look like a breakpad symbol file.
pub fn is_breakpad_file(b: &[u8]) -> (r: bool)
    ensures
        r == is_breakpad_bytes(b@),
{
    b.len() >= 7 && b[0] == 77 && b[1] == 79 && b[2] == 68 && b[3] == 85 && b[4] == 76 && b[5]
        == 69 && b[6] == 32
}

/// Relies on `String::from_utf8_lossy`: decodes UTF-8, replacing invalid
/// sequences with the replacement character; valid UTF-8 input comes back
/// byte for byte.
#[verifier::external_body]
fn string_from_utf8_lossy(v: Vec<u8>) -> (r: String)
    ensures
        valid_utf8(v@) ==> encode_utf8(r@) == v@,
{
    String::from_utf8_lossy(&v).into_owned()
}

/// Spec-level form of one parsed record: address, declared size, and the
/// name as the raw input bytes.
pub struct BreakpadRecord {
    pub address: u32,
    pub size: Option<u32>,
    pub name_bytes: Seq<u8>,
}

/// Spec-level form of one line record, already attached to its function:
/// the function's address, the source line, and the file's raw name bytes
/// when its `FILE` record exists.
pub struct BreakpadLineInfo {
    pub func_address: u32,
    pub line: u32,
    pub file_bytes: Option<Seq<u8>>,
}

/// An executable record carries the parsed record: same address, size and
/// (for valid UTF-8 names) the same name bytes, and no debug frames.
pub open spec fn record_matches(rec: SymbolRecord, g: BreakpadRecord) -> bool {
    &&& rec.address == g.address
    &&& rec.size == g.size
    &&& rec.frames is Unavailable
    &&& valid_utf8(g.name_bytes) ==> encode_utf8(rec.name@) == g.name_bytes
}

/// The executable `FILE` table carries the parsed one: same numbers, and
/// (for valid UTF-8 names) the same name bytes.
pub open spec fn files_match(fv: Seq<(u32, String)>, gf: Seq<(u32, Seq<u8>)>) -> bool {
    &&& fv.len() == gf.len()
    &&& forall|p: int|
        0 <= p < fv.len() ==> (#[trigger] fv[p]).0 == gf[p].0 && (valid_utf8(gf[p].1)
            ==> encode_utf8(fv[p].1@) == gf[p].1)
}

/// The executable line-info table carries the parsed one.
pub open spec fn infos_match(
    iv: Seq<(u32, u32, Option<String>)>,
    gi: Seq<BreakpadLineInfo>,
) -> bool {
    &&& iv.len() == gi.len()
    &&& forall|p: int|
        0 <= p < iv.len() ==> (#[trigger] iv[p]).0 == gi[p].func_address && iv[p].1 == gi[p].line
            && (match (iv[p].2, gi[p].file_bytes) {
            (Some(fs), Some(fb)) => valid_utf8(fb) ==> encode_utf8(fs@) == fb,
            (None, None) => true,
            _ => false,
        })
}

/// Pointwise correspondence of a parsed table with its spec-level form.
pub open spec fn records_match(rs: Seq<SymbolRecord>, gs: Seq<BreakpadRecord>) -> bool {
    &&& rs.len() == gs.len()
    &&& forall|j: int| 0 <= j < rs.len() ==> record_matches(#[trigger] rs[j], gs[j])
}

/// First position at or past `pos` that is not a hex digit.
pub open spec fn hex_digit_end(line: Seq<u8>, pos: int) -> int
    decreases line.len() - pos,
{
    if pos < 0 || pos >= line.len() || !is_hex_byte(line[pos]) {
        pos
    } else {
        hex_digit_end(line, pos + 1)
    }
}

/// One hex field: a non-empty run of at most eight digits, read as a value.
pub open spec fn hex_field_spec(line: Seq<u8>, pos: int) -> Option<(u32, int)> {
    let end = hex_digit_end(line, pos);
    if end == pos || end - pos > 8 {
        None
    } else {
        Some((hex_seq_val(line.subrange(pos, end)) as u32, end))
    }
}

/// The byte is an ASCII decimal digit.
pub open spec fn is_dec_byte(b: u8) -> bool {
    48 <= b <= 57
}

/// Value of a big-endian string of decimal digits.
pub open spec fn dec_seq_val(s: Seq<u8>) -> int
    decreases s.len(),
{
    if s.len() == 0 {
        0
    } else {
        dec_seq_val(s.drop_last()) * 10 + (s.last() - 48)
    }
}

/// First position at or past `pos` that is not a decimal digit.
pub open spec fn dec_digit_end(line: Seq<u8>, pos: int) -> int
    decreases line.len() - pos,
{
    if pos < 0 || pos >= line.len() || !is_dec_byte(line[pos]) {
        pos
    } else {
        dec_digit_end(line, pos + 1)
    }
}

/// One decimal field: a non-empty run of at most nine digits, read as a
/// value.
pub open spec fn dec_field_spec(line: Seq<u8>, pos: int) -> Option<(u32, int)> {
    let end = dec_digit_end(line, pos);
    if end == pos || end - pos > 9 {
        None
    } else {
        Some((dec_seq_val(line.subrange(pos, end)) as u32, end))
    }
}

/// A string of decimal digits reads as a value below `10` to the power of
/// its length.
proof fn lemma_dec_seq_val_range(s: Seq<u8>)
    requires
        forall|i: int| 0 <= i < s.len() ==> is_dec_byte(#[trigger] s[i]),
    ensures
        0 <= dec_seq_val(s) < pow10(s.len() as nat),
    decreases s.len(),
{
    lemma_pow10_pos(s.len() as nat);
    if s.len() > 0 {
        lemma_dec_seq_val_range(s.drop_last());
        assert(0 <= s.last() - 48 < 10);
        assert(pow10(s.len() as nat) == 10 * pow10((s.len() - 1) as nat));
    }
}

proof fn lemma_pow10_monotone(a: nat, b: nat)
    requires
        a <= b,
    ensures
        pow10(a) <= pow10(b),
    decreases b,
{
    if a < b {
        lemma_pow10_monotone(a, (b - 1) as nat);
        lemma_pow10_pos((b - 1) as nat);
    }
}

proof fn lemma_dec_digit_end_at(line: Seq<u8>, pos: int, end: int)
    requires
        0 <= pos <= end <= line.len(),
        forall|k: int| pos <= k < end ==> is_dec_byte(#[trigger] line[k]),
        end == line.len() || !is_dec_byte(line[end]),
    ensures
        dec_digit_end(line, pos) == end,
    decreases end - pos,
{
    if pos < end {
        lemma_dec_digit_end_at(line, pos + 1, end);
    }
}

/// First position at or past `pos` holding a space.
pub open spec fn field_end(line: Seq<u8>, pos: int) -> int
    decreases line.len() - pos,
{
    if pos < 0 || pos >= line.len() || line[pos] == 32 {
        pos
    } else {
        field_end(line, pos + 1)
    }
}

/// Position after one field and its trailing space.
pub open spec fn skip_field_spec(line: Seq<u8>, pos: int) -> int {
    let e = field_end(line, pos);
    if e < line.len() {
        e + 1
    } else {
        e
    }
}

/// The line starts with `FUNC `.
pub open spec fn is_func_line(line: Seq<u8>) -> bool {
    &&& line.len() >= 5
    &&& line[0] == 70
    &&& line[1] == 85
    &&& line[2] == 78
    &&& line[3] == 67
    &&& line[4] == 32
}

/// The line starts with `PUBLIC `.
pub open spec fn is_public_line(line: Seq<u8>) -> bool {
    &&& line.len() >= 7
    &&& line[0] == 80
    &&& line[1] == 85
    &&& line[2] == 66
    &&& line[3] == 76
    &&& line[4] == 73
    &&& line[5] == 67
    &&& line[6] == 32
}

/// The id spelled by a `MODULE os arch id name` line, when well formed.
pub open spec fn module_id_spec(line: Seq<u8>) -> Option<DebugId> {
    let p1 = skip_field_spec(line, 7);
    let p2 = skip_field_spec(line, p1);
    let p3 = field_end(line, p2);
    let idf = line.subrange(p2, p3);
    if valid_breakpad_bytes(idf) {
        Some(debug_id_of_bytes(idf))
    } else {
        None
    }
}

/// Start of the fields after an optional `m ` multiple-flag.
pub open spec fn after_flag(line: Seq<u8>, pos: int) -> int {
    if pos + 2 <= line.len() && line[pos] == 109 && line[pos + 1] == 32 {
        pos + 2
    } else {
        pos
    }
}

/// The record spelled by a `FUNC` line, when well formed.
pub open spec fn func_record_spec(line: Seq<u8>) -> Option<BreakpadRecord> {
    let pos = after_flag(line, 5);
    match hex_field_spec(line, pos) {
        Some((address, e1)) => if e1 < line.len() && line[e1] == 32 {
            match hex_field_spec(line, e1 + 1) {
                Some((size, e2)) => if e2 < line.len() && line[e2] == 32 {
                    match hex_field_spec(line, e2 + 1) {
                        Some((param_size, e3)) => {
                            let name_start = if e3 < line.len() && line[e3] == 32 {
                                e3 + 1
                            } else {
                                e3
                            };
                            Some(
                                BreakpadRecord {
                                    address,
                                    size: Some(size),
                                    name_bytes: line.subrange(name_start, line.len() as int),
                                },
                            )
                        },
                        None => None,
                    }
                } else {
                    None
                },
                None => None,
            }
        } else {
            None
        },
        None => None,
    }
}

/// The record spelled by a `PUBLIC` line, when well formed.
pub open spec fn public_record_spec(line: Seq<u8>) -> Option<BreakpadRecord> {
    let pos = after_flag(line, 7);
    match hex_field_spec(line, pos) {
        Some((address, e1)) => if e1 < line.len() && line[e1] == 32 {
            match hex_field_spec(line, e1 + 1) {
                Some((param_size, e2)) => {
                    let name_start = if e2 < line.len() && line[e2] == 32 {
                        e2 + 1
                    } else {
                        e2
                    };
                    Some(
                        BreakpadRecord {
                            address,
                            size: None,
                            name_bytes: line.subrange(name_start, line.len() as int),
                        },
                    )
                },
                None => None,
            }
        } else {
            None
        },
        None => None,
    }
}

/// The line starts with `FILE `.
pub open spec fn is_file_line(line: Seq<u8>) -> bool {
    &&& line.len() >= 5
    &&& line[0] == 70
    &&& line[1] == 73
    &&& line[2] == 76
    &&& line[3] == 69
    &&& line[4] == 32
}

/// The number and raw name bytes spelled by a `FILE number name` line.
pub open spec fn file_record_spec(line: Seq<u8>) -> Option<(u32, Seq<u8>)> {
    match dec_field_spec(line, 5) {
        Some((num, e1)) => {
            let name_start = if e1 < line.len() && line[e1] == 32 {
                e1 + 1
            } else {
                e1
            };
            Some((num, line.subrange(name_start, line.len() as int)))
        },
        None => None,
    }
}

/// The raw name bytes of the `FILE` record with this number, if any.
pub open spec fn find_file(gf: Seq<(u32, Seq<u8>)>, num: u32) -> Option<Seq<u8>>
    decreases gf.len(),
{
    if gf.len() == 0 {
        None
    } else if gf[0].0 == num {
        Some(gf[0].1)
    } else {
        find_file(gf.skip(1), num)
    }
}

/// A `address size line filenum` record following a `FUNC`: the attached
/// info carries the pending function's address, the source line, and the
/// file name the current `FILE` table gives the file number.
pub open spec fn line_record_spec(
    line: Seq<u8>,
    last_func: Option<u32>,
    gf: Seq<(u32, Seq<u8>)>,
) -> Option<BreakpadLineInfo> {
    match last_func {
        None => None,
        Some(func_address) => match hex_field_spec(line, 0) {
            Some((_address, e1)) => if e1 < line.len() && line[e1] == 32 {
                match hex_field_spec(line, e1 + 1) {
                    Some((_size, e2)) => if e2 < line.len() && line[e2] == 32 {
                        match dec_field_spec(line, e2 + 1) {
                            Some((line_no, e3)) => if e3 < line.len() && line[e3] == 32 {
                                match dec_field_spec(line, e3 + 1) {
                                    Some((filenum, _e4)) => Some(
                                        BreakpadLineInfo {
                                            func_address,
                                            line: line_no,
                                            file_bytes: find_file(gf, filenum),
                                        },
                                    ),
                                    None => None,
                                }
                            } else {
                                None
                            },
                            None => None,
                        }
                    } else {
                        None
                    },
                    None => None,
                }
            } else {
                None
            },
            None => None,
        },
    }
}

/// The first attached line info for a function address, if any.
pub open spec fn find_line_info(gi: Seq<BreakpadLineInfo>, address: u32) -> Option<
    BreakpadLineInfo,
>
    decreases gi.len(),
{
    if gi.len() == 0 {
        None
    } else if gi[0].func_address == address {
        Some(gi[0])
    } else {
        find_line_info(gi.skip(1), address)
    }
}

/// The running state of the parse: the module id, the `FILE` table, the
/// sorted records, the function awaiting its first line record, and the
/// attached line infos.
pub struct ParseState {
    pub id: Option<DebugId>,
    pub files: Seq<(u32, Seq<u8>)>,
    pub recs: Seq<BreakpadRecord>,
    pub last_func: Option<u32>,
    pub infos: Seq<BreakpadLineInfo>,
}

/// Number of records with an address strictly below `address`: the sorted
/// insertion point.
pub open spec fn rec_insert_pos(gs: Seq<BreakpadRecord>, address: u32) -> int
    decreases gs.len(),
{
    if gs.len() == 0 {
        0
    } else if gs[0].address < address {
        1 + rec_insert_pos(gs.skip(1), address)
    } else {
        0
    }
}

/// The table after inserting one record: dropped when its address is
/// already present, else placed at its sorted position.
pub open spec fn insert_record_spec(gs: Seq<BreakpadRecord>, g: BreakpadRecord) -> Seq<
    BreakpadRecord,
> {
    let p = rec_insert_pos(gs, g.address);
    if p < gs.len() && gs[p].address == g.address {
        gs
    } else {
        gs.subrange(0, p).push(g) + gs.subrange(p, gs.len() as int)
    }
}

/// The state change one line makes: a well-formed `MODULE` line sets the
/// id, a `FUNC` or `PUBLIC` line inserts its record (a `FUNC` also starts
/// waiting for its first line record), a `FILE` line extends the file
/// table, a line record attaches an info to the waiting function, and
/// every other (or malformed) line is ignored.
pub open spec fn line_step_spec(line: Seq<u8>, st: ParseState) -> ParseState {
    if is_breakpad_bytes(line) {
        match module_id_spec(line) {
            Some(new_id) => ParseState { id: Some(new_id), last_func: None, ..st },
            None => ParseState { last_func: None, ..st },
        }
    } else if is_func_line(line) {
        match func_record_spec(line) {
            Some(g) => ParseState {
                recs: insert_record_spec(st.recs, g),
                last_func: Some(g.address),
                ..st
            },
            None => ParseState { last_func: None, ..st },
        }
    } else if is_public_line(line) {
        match public_record_spec(line) {
            Some(g) => ParseState {
                recs: insert_record_spec(st.recs, g),
                last_func: None,
                ..st
            },
            None => ParseState { last_func: None, ..st },
        }
    } else if is_file_line(line) {
        match file_record_spec(line) {
            Some(f) => ParseState { files: st.files.push(f), ..st },
            None => st,
        }
    } else if line.len() > 0 && is_hex_byte(line[0]) {
        match line_record_spec(line, st.last_func, st.files) {
            Some(li) => ParseState { infos: st.infos.push(li), last_func: None, ..st },
            None => st,
        }
    } else {
        st
    }
}

/// First newline at or past `pos`, or the end of the input.
pub open spec fn line_end_at(b: Seq<u8>, pos: int) -> int
    decreases b.len() - pos,
{
    if pos < 0 || pos >= b.len() || b[pos] == 10 {
        pos
    } else {
        line_end_at(b, pos + 1)
    }
}

/// The whole parse: fold `line_step_spec` over the newline-separated lines
/// from `pos` on.
pub open spec fn parse_sym_spec(b: Seq<u8>, pos: int, st: ParseState) -> ParseState
    decreases b.len() - pos,
{
    if pos < 0 || pos >= b.len() {
        st
    } else {
        let e = line_end_at(b, pos);
        if pos <= e <= b.len() {
            let st2 = line_step_spec(b.subrange(pos, e), st);
            if e >= b.len() {
                st2
            } else {
                parse_sym_spec(b, e + 1, st2)
            }
        } else {
            st
        }
    }
}

/// The parse's starting state: nothing seen yet.
pub open spec fn initial_parse_state() -> ParseState {
    ParseState {
        id: None,
        files: Seq::empty(),
        recs: Seq::empty(),
        last_func: None,
        infos: Seq::empty(),
    }
}

/// The end of a line lies between its start and the end of the input.
pub proof fn lemma_line_end_bounds(b: Seq<u8>, pos: int)
    requires
        0 <= pos <= b.len(),
    ensures
        pos <= line_end_at(b, pos) <= b.len(),
    decreases b.len() - pos,
{
    if pos < b.len() && b[pos] != 10 {
        lemma_line_end_bounds(b, pos + 1);
    }
}

/// Every record of a parsed breakpad table is a plain symbol or carries a
/// single attached frame.
pub open spec fn all_small_frames(rs: Seq<SymbolRecord>) -> bool {
    forall|j: int|
        0 <= j < rs.len() ==> match (#[trigger] rs[j]).frames {
            FramesSource::Inline(rf) => rf@.len() == 1,
            _ => true,
        }
}

/// A table whose records carry at most one frame each needs at most two
/// intern calls per record.
pub proof fn lemma_small_budget(rs: Seq<SymbolRecord>, j: int)
    requires
        all_small_frames(rs),
        0 <= j <= rs.len(),
    ensures
        intern_budget_from(rs, j) <= 2 * (rs.len() - j),
        intern_budget_from(rs, j) >= 0,
    decreases rs.len() - j,
{
    if j < rs.len() {
        lemma_small_budget(rs, j + 1);
        assert(record_intern_cost(rs[j]) <= 2);
    }
}

/// A boundary below which everything is a hex digit and which is not one
/// itself (or the end) pins `hex_digit_end` down.
proof fn lemma_hex_digit_end_at(line: Seq<u8>, pos: int, end: int)
    requires
        0 <= pos <= end <= line.len(),
        forall|k: int| pos <= k < end ==> is_hex_byte(#[trigger] line[k]),
        end == line.len() || !is_hex_byte(line[end]),
    ensures
        hex_digit_end(line, pos) == end,
    decreases end - pos,
{
    if pos < end {
        lemma_hex_digit_end_at(line, pos + 1, end);
    }
}

/// A position at which a space (or the end) first occurs pins `field_end`
/// down.
proof fn lemma_field_end_at(line: Seq<u8>, pos: int, end: int)
    requires
        0 <= pos <= end <= line.len(),
        forall|k: int| pos <= k < end ==> #[trigger] line[k] != 32,
        end == line.len() || line[end] == 32,
    ensures
        field_end(line, pos) == end,
    decreases end - pos,
{
    if pos < end {
        lemma_field_end_at(line, pos + 1, end);
    }
}

/// A position at which a newline (or the end) first occurs pins
/// `line_end_at` down.
proof fn lemma_line_end_at(b: Seq<u8>, pos: int, end: int)
    requires
        0 <= pos <= end <= b.len(),
        forall|k: int| pos <= k < end ==> #[trigger] b[k] != 10,
        end == b.len() || b[end] == 10,
    ensures
        line_end_at(b, pos) == end,
    decreases end - pos,
{
    if pos < end {
        lemma_line_end_at(b, pos + 1, end);
    }
}

/// A first position whose address is not below pins `rec_insert_pos` down;
/// stated over the executable table through the correspondence.
proof fn lemma_rec_insert_pos_at(gs: Seq<BreakpadRecord>, address: u32, p: int)
    requires
        0 <= p <= gs.len(),
        forall|k: int| 0 <= k < p ==> (#[trigger] gs[k]).address < address,
        forall|k: int| p <= k < gs.len() ==> address <= (#[trigger] gs[k]).address,
    ensures
        rec_insert_pos(gs, address) == p,
    decreases p,
{
    if gs.len() > 0 {
        if p > 0 {
            assert forall|k: int| 0 <= k < p - 1 implies (#[trigger] gs.skip(1)[k]).address
                < address by {
                assert(gs.skip(1)[k] == gs[k + 1]);
            }
            assert forall|k: int| p - 1 <= k < gs.skip(1).len() implies address <= (
            #[trigger] gs.skip(1)[k]).address by {
                assert(gs.skip(1)[k] == gs[k + 1]);
            }
            lemma_rec_insert_pos_at(gs.skip(1), address, p - 1);
        }
    }
}

/// Reads a run of hex digits starting at `pos`; stops at the first
/// non-digit. Fails on an empty run or one of more than eight digits.
fn parse_hex_field(line: &[u8], pos: usize) -> (r: Option<(u32, usize)>)
    requires
        pos <= line@.len(),
    ensures
        match r {
            Some((v, end)) => pos <= end <= line@.len() && hex_field_spec(line@, pos as int)
                == Some((v, end as int)),
            None => hex_field_spec(line@, pos as int) is None,
        },
{
    let n = line.len();
    let mut i = pos;
    while i < n && ((48 <= line[i] && line[i] <= 57) || (97 <= line[i] && line[i] <= 102) || (65
        <= line[i] && line[i] <= 70))
        invariant
            pos <= i <= n == line@.len(),
            forall|k: int| pos <= k < i ==> is_hex_byte(#[trigger] line@[k]),
        decreases n - i,
    {
        i += 1;
    }
    proof {
        lemma_hex_digit_end_at(line@, pos as int, i as int);
    }
    if i == pos || i - pos > 8 {
        return None;
    }
    let end = i;
    let mut k = pos;
    let mut v: u64 = 0;
    while k < end
        invariant
            pos <= k <= end <= n == line@.len(),
            end - pos <= 8,
            forall|q: int| pos <= q < end ==> is_hex_byte(#[trigger] line@[q]),
            v == hex_seq_val(line@.subrange(pos as int, k as int)),
        decreases end - k,
    {
        let ghost pre = line@.subrange(pos as int, k as int);
        let d = line[k];
        let nib: u64 = if 48 <= d && d <= 57 {
            (d - 48) as u64
        } else if 97 <= d && d <= 102 {
            (d - 87) as u64
        } else {
            (d - 55) as u64
        };
        proof {
            lemma_hex_seq_val_range(pre);
            lemma_pow16_monotone(pre.len() as nat, 7);
            assert(pow16(7) == 0x1000_0000) by {
                reveal_with_fuel(pow16, 8);
            }
            assert(line@.subrange(pos as int, k + 1).drop_last() =~= pre);
            assert(line@.subrange(pos as int, k + 1).last() == line@[k as int]);
        }
        v = v * 16 + nib;
        k += 1;
    }
    proof {
        lemma_hex_seq_val_range(line@.subrange(pos as int, end as int));
        lemma_pow16_monotone((end - pos) as nat, 8);
        assert(pow16(8) == 0x1_0000_0000) by {
            reveal_with_fuel(pow16, 9);
        }
    }
    Some((v as u32, end))
}

/// Reads a run of decimal digits starting at `pos`; stops at the first
/// non-digit. Fails on an empty run or one of more than nine digits.
fn parse_dec_field(line: &[u8], pos: usize) -> (r: Option<(u32, usize)>)
    requires
        pos <= line@.len(),
    ensures
        match r {
            Some((v, end)) => pos <= end <= line@.len() && dec_field_spec(line@, pos as int)
                == Some((v, end as int)),
            None => dec_field_spec(line@, pos as int) is None,
        },
{
    let n = line.len();
    let mut i = pos;
    while i < n && 48 <= line[i] && line[i] <= 57
        invariant
            pos <= i <= n == line@.len(),
            forall|k: int| pos <= k < i ==> is_dec_byte(#[trigger] line@[k]),
        decreases n - i,
    {
        i += 1;
    }
    proof {
        lemma_dec_digit_end_at(line@, pos as int, i as int);
    }
    if i == pos || i - pos > 9 {
        return None;
    }
    let end = i;
    let mut k = pos;
    let mut v: u64 = 0;
    while k < end
        invariant
            pos <= k <= end <= n == line@.len(),
            end - pos <= 9,
            forall|q: int| pos <= q < end ==> is_dec_byte(#[trigger] line@[q]),
            v == dec_seq_val(line@.subrange(pos as int, k as int)),
        decreases end - k,
    {
        let ghost pre = line@.subrange(pos as int, k as int);
        let d = line[k];
        proof {
            lemma_dec_seq_val_range(pre);
            lemma_pow10_monotone(pre.len() as nat, 8);
            assert(pow10(8) == 100000000) by {
                reveal_with_fuel(pow10, 9);
            }
            assert(line@.subrange(pos as int, k + 1).drop_last() =~= pre);
            assert(line@.subrange(pos as int, k + 1).last() == line@[k as int]);
        }
        v = v * 10 + (d - 48) as u64;
        k += 1;
    }
    proof {
        lemma_dec_seq_val_range(line@.subrange(pos as int, end as int));
        lemma_pow10_monotone((end - pos) as nat, 9);
        assert(pow10(9) == 1000000000) by {
            reveal_with_fuel(pow10, 10);
        }
    }
    Some((v as u32, end))
}

/// Position after the next space run, starting at `pos`: skips one field
/// and its trailing space.
fn skip_field(line: &[u8], pos: usize) -> (r: usize)
    requires
        pos <= line@.len(),
    ensures
        pos <= r <= line@.len(),
        r == skip_field_spec(line@, pos as int),
{
    let n = line.len();
    let mut i = pos;
    while i < n && line[i] != 32
        invariant
            pos <= i <= n == line@.len(),
            forall|k: int| pos <= k < i ==> #[trigger] line@[k] != 32,
        decreases n - i,
    {
        i += 1;
    }
    proof {
        lemma_field_end_at(line@, pos as int, i as int);
    }
    if i < n {
        i + 1
    } else {
        i
    }
}

/// Inserts a record into an address-sorted table, dropping it when the
/// address is already present: the executable form of `insert_record_spec`.
fn insert_sorted(out: &mut Vec<SymbolRecord>, rec: SymbolRecord, Ghost(gs): Ghost<
    Seq<BreakpadRecord>,
>, Ghost(g): Ghost<BreakpadRecord>) -> (gs2: Ghost<Seq<BreakpadRecord>>)
    requires
        sym_sorted(old(out)@),
        records_match(old(out)@, gs),
        record_matches(rec, g),
    ensures
        sym_sorted(final(out)@),
        records_match(final(out)@, gs2@),
        gs2@ == insert_record_spec(gs, g),
{
    let ghost o0 = out@;
    let n = out.len();
    let mut p: usize = 0;
    while p < n && out[p].address < rec.address
        invariant
            p <= n == out@.len(),
            out@ == o0,
            forall|k: int| 0 <= k < p ==> (#[trigger] out@[k]).address < rec.address,
        decreases n - p,
    {
        p += 1;
    }
    proof {
        assert forall|k: int| p <= k < out@.len() implies rec.address <= (
        #[trigger] out@[k]).address by {
            if k > p {
                assert(out@[p as int].address < out@[k].address);
            }
        }
        assert forall|k: int| 0 <= k < p implies (#[trigger] gs[k]).address < g.address by {
            assert(record_matches(o0[k], gs[k]));
        }
        assert forall|k: int| p <= k < gs.len() implies g.address <= (
        #[trigger] gs[k]).address by {
            assert(record_matches(o0[k], gs[k]));
        }
        lemma_rec_insert_pos_at(gs, g.address, p as int);
    }
    if p < n && out[p].address == rec.address {
        proof {
            assert(record_matches(o0[p as int], gs[p as int]));
        }
        return Ghost(gs);
    }
    out.insert(p, rec);
    let ghost gs2 = gs.subrange(0, p as int).push(g) + gs.subrange(p as int, gs.len() as int);
    proof {
        assert forall|i: int, j: int| 0 <= i < j < out@.len() implies out@[i].address
            < out@[j].address by {
            if i < p && j < p {
                assert(out@[i] == o0[i] && out@[j] == o0[j]);
            } else if i < p && j == p {
                assert(out@[i] == o0[i]);
            } else if i < p && j > p {
                assert(out@[i] == o0[i] && out@[j] == o0[j - 1]);
            } else if i == p {
                assert(out@[j] == o0[j - 1]);
            } else {
                assert(out@[i] == o0[i - 1] && out@[j] == o0[j - 1]);
            }
        }
        assert forall|j: int| 0 <= j < out@.len() implies record_matches(
            #[trigger] out@[j],
            gs2[j],
        ) by {
            if j < p {
                assert(out@[j] == o0[j] && gs2[j] == gs[j]);
                assert(record_matches(o0[j], gs[j]));
            } else if j == p {
                assert(out@[j] == rec && gs2[j] == g);
            } else {
                assert(out@[j] == o0[j - 1] && gs2[j] == gs[j - 1]);
                assert(record_matches(o0[j - 1], gs[j - 1]));
            }
        }
    }
    Ghost(gs2)
}

/// Fills in missing symbol sizes: a symbol without a declared size gets the
/// distance to the next symbol; the last keeps none. Addresses, names and
/// frames stay as they were.
pub fn approximate_symbol_sizes(recs: Vec<SymbolRecord>) -> (r: Vec<SymbolRecord>)
    requires
        sym_sorted(recs@),
    ensures
        r@.len() == recs@.len(),
        sym_sorted(r@),
        forall|j: int|
            0 <= j < r@.len() ==> {
                let old_rec = recs@[j];
                let new_rec = #[trigger] r@[j];
                &&& new_rec.address == old_rec.address
                &&& new_rec.name == old_rec.name
                &&& new_rec.frames == old_rec.frames
                &&& new_rec.size == (match old_rec.size {
                    Some(sz) => Some(sz),
                    None => if j + 1 < recs@.len() {
                        Some((recs@[j + 1].address - old_rec.address) as u32)
                    } else {
                        None
                    },
                })
            },
{
    let ghost orig = recs@;
    let mut input = recs;
    let mut out: Vec<SymbolRecord> = Vec::new();
    while input.len() > 0
        invariant
            out@.len() + input@.len() == orig.len(),
            input@ =~= orig.subrange(out@.len() as int, orig.len() as int),
            sym_sorted(orig),
            forall|j: int|
                0 <= j < out@.len() ==> {
                    let old_rec = orig[j];
                    let new_rec = #[trigger] out@[j];
                    &&& new_rec.address == old_rec.address
                    &&& new_rec.name == old_rec.name
                    &&& new_rec.frames == old_rec.frames
                    &&& new_rec.size == (match old_rec.size {
                        Some(sz) => Some(sz),
                        None => if j + 1 < orig.len() {
                            Some((orig[j + 1].address - old_rec.address) as u32)
                        } else {
                            None
                        },
                    })
                },
        decreases input@.len(),
    {
        let ghost k = out@.len() as int;
        let rec = input.remove(0);
        proof {
            assert(rec == orig[k]);
            if input@.len() > 0 {
                assert(input@[0] == orig[k + 1]);
            }
        }
        let size: Option<u32> = match rec.size {
            Some(sz) => Some(sz),
            None => {
                if input.len() > 0 {
                    proof {
                        assert(orig[k].address < orig[k + 1].address);
                    }
                    Some(input[0].address - rec.address)
                } else {
                    None
                }
            },
        };
        out.push(
            SymbolRecord { address: rec.address, size, name: rec.name, frames: rec.frames },
        );
        proof {
            assert(input@ =~= orig.subrange(out@.len() as int, orig.len() as int));
        }
    }
    proof {
        assert forall|i: int, j: int| 0 <= i < j < out@.len() implies out@[i].address
            < out@[j].address by {
            assert(out@[i].address == orig[i].address);
            assert(out@[j].address == orig[j].address);
        }
    }
    out
}

/// The single attached frame a record with line info carries: the record's
/// own (function) name, the attached file when its name bytes decode, and
/// the line number.
pub open spec fn attached_frame_ok(rec: SymbolRecord, li: BreakpadLineInfo) -> bool {
    match rec.frames {
        FramesSource::Inline(rf) => {
            &&& rf@.len() == 1
            &&& (rf@[0].function matches Some(f) && f@ == rec.name@)
            &&& rf@[0].line_number == Some(li.line)
            &&& match (rf@[0].file_path, li.file_bytes) {
                (Some(FilePath::NonLocal(fs)), Some(fb)) => valid_utf8(fb) ==> encode_utf8(fs@)
                    == fb,
                (None, None) => true,
                _ => false,
            }
        },
        _ => false,
    }
}

/// The table `(id, recs)` is exactly what the breakpad bytes `data` spell:
/// the `MODULE` line's id; the address-sorted `FUNC`/`PUBLIC` records of
/// `parse_sym_spec`, missing sizes approximated from the next record; and,
/// for each function with an attached line record, a single frame carrying
/// its name, file and line.
pub open spec fn breakpad_table_of(data: Seq<u8>, id: DebugId, recs: Seq<SymbolRecord>) -> bool {
    let parsed = parse_sym_spec(data, 0, initial_parse_state());
    &&& is_breakpad_bytes(data)
    &&& parsed.id == Some(id)
    &&& recs.len() == parsed.recs.len()
    &&& forall|j: int|
        0 <= j < recs.len() ==> {
            let g = parsed.recs[j];
            let rec = #[trigger] recs[j];
            &&& rec.address == g.address
            &&& (valid_utf8(g.name_bytes) ==> encode_utf8(rec.name@) == g.name_bytes)
            &&& rec.size == (match g.size {
                Some(sz) => Some(sz),
                None => if j + 1 < parsed.recs.len() {
                    Some((parsed.recs[j + 1].address - g.address) as u32)
                } else {
                    None
                },
            })
            &&& match find_line_info(parsed.infos, g.address) {
                Some(li) => attached_frame_ok(rec, li),
                None => rec.frames is Unavailable,
            }
        }
}

/// Parses a breakpad symbol file. On success the returned table is exactly
/// what the bytes spell (`breakpad_table_of`): the `MODULE` id, the sorted
/// size-approximated records, and one attached frame per function with a
/// line record.
pub fn parse_breakpad_sym(data: &[u8]) -> (r: Result<(DebugId, Vec<SymbolRecord>), Error>)
    ensures
        match r {
            Ok((id, recs)) => {
                &&& breakpad_table_of(data@, id, recs@)
                &&& sym_sorted(recs@)
                &&& recs@.len() <= 0x0800_0000
                &&& intern_budget_from(recs@, 0) <= 2 * recs@.len()
                &&& forall|j: int|
                    0 <= j < recs@.len() ==> match (#[trigger] recs@[j]).frames {
                        FramesSource::Inline(rf) => rf@.len() >= 1,
                        _ => true,
                    }
            },
            Err(e) => {
                &&& (e is InvalidInputError || e is ObjectParseError)
                &&& (!is_breakpad_bytes(data@) ==> e is InvalidInputError)
                &&& (is_breakpad_bytes(data@) ==> parse_sym_spec(
                    data@,
                    0,
                    initial_parse_state(),
                ).id is None || parse_sym_spec(data@, 0, initial_parse_state()).recs.len()
                    > 0x0800_0000)
            },
        },
{
    if !is_breakpad_file(data) {
        return Err(
            Error::InvalidInputError("The file is not in the breakpad symbol text format"),
        );
    }
    let n = data.len();
    let mut debug_id: Option<DebugId> = None;
    let mut recs: Vec<SymbolRecord> = Vec::new();
    let mut files: Vec<(u32, String)> = Vec::new();
    let mut last_func: Option<u32> = None;
    let mut infos: Vec<(u32, u32, Option<String>)> = Vec::new();
    let ghost mut gs: Seq<BreakpadRecord> = Seq::empty();
    let ghost mut gf: Seq<(u32, Seq<u8>)> = Seq::empty();
    let ghost mut gi: Seq<BreakpadLineInfo> = Seq::empty();
    let mut line_start: usize = 0;
    while line_start < n
        invariant
            line_start <= n == data@.len(),
            sym_sorted(recs@),
            records_match(recs@, gs),
            files_match(files@, gf),
            infos_match(infos@, gi),
            parse_sym_spec(data@, 0, initial_parse_state()) == parse_sym_spec(
                data@,
                line_start as int,
                ParseState { id: debug_id, files: gf, recs: gs, last_func, infos: gi },
            ),
        decreases n - line_start,
    {
        let ghost st0 = ParseState { id: debug_id, files: gf, recs: gs, last_func, infos: gi };
        let mut line_end = line_start;
        while line_end < n && data[line_end] != 10
            invariant
                line_start <= line_end <= n == data@.len(),
                forall|k: int| line_start <= k < line_end ==> #[trigger] data@[k] != 10,
            decreases n - line_end,
        {
            line_end += 1;
        }
        proof {
            lemma_line_end_at(data@, line_start as int, line_end as int);
        }
        let line = vstd::slice::slice_subrange(data, line_start, line_end);
        let g2 = parse_breakpad_line(
            line,
            &mut debug_id,
            &mut recs,
            &mut files,
            &mut last_func,
            &mut infos,
            Ghost(gs),
            Ghost(gf),
            Ghost(gi),
        );
        proof {
            gs = g2@.0;
            gf = g2@.1;
            gi = g2@.2;
            assert(line_step_spec(data@.subrange(line_start as int, line_end as int), st0)
                == (ParseState { id: debug_id, files: gf, recs: gs, last_func, infos: gi }));
        }
        if line_end == n {
            line_start = n;
        } else {
            line_start = line_end + 1;
        }
    }
    let id = match debug_id {
        Some(id) => id,
        None => {
            return Err(
                Error::ObjectParseError(FileKind::BreakpadSym, module_line_error_text()),
            );
        },
    };
    if recs.len() > 0x0800_0000 {
        return Err(Error::InvalidInputError("The symbol table is too large"));
    }
    let attached = attach_line_info(recs, &infos, Ghost(gs), Ghost(gi));
    let sized = approximate_symbol_sizes(attached);
    proof {
        lemma_small_budget(sized@, 0);
    }
    Ok((id, sized))
}

/// The message for a missing or malformed `MODULE` line.
fn module_line_error_text() -> (r: String) {
    let s: &str = "missing or malformed MODULE line";
    s.to_owned()
}

/// A first info position whose address matches, with none earlier, pins
/// `find_line_info` down.
proof fn lemma_find_line_info_at(gi: Seq<BreakpadLineInfo>, address: u32, p: int)
    requires
        0 <= p < gi.len(),
        gi[p].func_address == address,
        forall|k: int| 0 <= k < p ==> (#[trigger] gi[k]).func_address != address,
    ensures
        find_line_info(gi, address) == Some(gi[p]),
    decreases p,
{
    if p > 0 {
        assert forall|k: int| 0 <= k < p - 1 implies (#[trigger] gi.skip(1)[k]).func_address
            != address by {
            assert(gi.skip(1)[k] == gi[k + 1]);
        }
        assert(gi.skip(1)[p - 1] == gi[p]);
        lemma_find_line_info_at(gi.skip(1), address, p - 1);
    }
}

/// No info carries this address.
proof fn lemma_find_line_info_absent(gi: Seq<BreakpadLineInfo>, address: u32)
    requires
        forall|k: int| 0 <= k < gi.len() ==> (#[trigger] gi[k]).func_address != address,
    ensures
        find_line_info(gi, address) is None,
    decreases gi.len(),
{
    if gi.len() > 0 {
        assert forall|k: int| 0 <= k < gi.len() - 1 implies (
        #[trigger] gi.skip(1)[k]).func_address != address by {
            assert(gi.skip(1)[k] == gi[k + 1]);
        }
        lemma_find_line_info_absent(gi.skip(1), address);
    }
}

/// Attaches each function's first line record: a record with an attached
/// info gains a single frame carrying its own name and the info's file and
/// line; every other record keeps its (absent) frames.
fn attach_line_info(
    recs: Vec<SymbolRecord>,
    infos: &Vec<(u32, u32, Option<String>)>,
    Ghost(gs): Ghost<Seq<BreakpadRecord>>,
    Ghost(gi): Ghost<Seq<BreakpadLineInfo>>,
) -> (r: Vec<SymbolRecord>)
    requires
        sym_sorted(recs@),
        records_match(recs@, gs),
        infos_match(infos@, gi),
    ensures
        r@.len() == recs@.len(),
        sym_sorted(r@),
        all_small_frames(r@),
        forall|j: int|
            0 <= j < r@.len() ==> {
                let old_rec = recs@[j];
                let new_rec = #[trigger] r@[j];
                &&& new_rec.address == old_rec.address
                &&& new_rec.size == old_rec.size
                &&& new_rec.name == old_rec.name
                &&& match find_line_info(gi, old_rec.address) {
                    Some(li) => attached_frame_ok(new_rec, li),
                    None => new_rec.frames == old_rec.frames,
                }
            },
{
    let ghost orig = recs@;
    let mut input = recs;
    let mut out: Vec<SymbolRecord> = Vec::new();
    while input.len() > 0
        invariant
            out@.len() + input@.len() == orig.len(),
            input@ =~= orig.subrange(out@.len() as int, orig.len() as int),
            sym_sorted(orig),
            records_match(orig, gs),
            infos_match(infos@, gi),
            forall|j: int|
                0 <= j < out@.len() ==> {
                    let old_rec = orig[j];
                    let new_rec = #[trigger] out@[j];
                    &&& new_rec.address == old_rec.address
                    &&& new_rec.size == old_rec.size
                    &&& new_rec.name == old_rec.name
                    &&& match find_line_info(gi, old_rec.address) {
                        Some(li) => attached_frame_ok(new_rec, li),
                        None => new_rec.frames == old_rec.frames,
                    }
                },
        decreases input@.len(),
    {
        let ghost j = out@.len() as int;
        let rec = input.remove(0);
        proof {
            assert(rec == orig[j]);
            assert(record_matches(orig[j], gs[j]));
        }
        // Find this function's first line record, if any.
        let ni = infos.len();
        let mut p: usize = 0;
        let mut hit: Option<usize> = None;
        while p < ni && hit.is_none()
            invariant
                p <= ni == infos@.len(),
                infos_match(infos@, gi),
                match hit {
                    Some(h) => h < ni && infos@[h as int].0 == rec.address && find_line_info(
                        gi,
                        rec.address,
                    ) == Some(gi[h as int]),
                    None => forall|k: int|
                        0 <= k < p ==> (#[trigger] gi[k]).func_address != rec.address,
                },
            decreases ni - p, (if hit is Some {
                0int
            } else {
                1int
            }),
        {
            if infos[p].0 == rec.address {
                proof {
                    lemma_find_line_info_at(gi, rec.address, p as int);
                }
                hit = Some(p);
            } else {
                p += 1;
            }
        }
        match hit {
            Some(h) => {
                let file_path: Option<FilePath> = match &infos[h].2 {
                    Some(f) => Some(FilePath::NonLocal(f.clone())),
                    None => None,
                };
                let mut frames_vec: Vec<InlineStackFrame> = Vec::new();
                frames_vec.push(
                    InlineStackFrame {
                        function: Some(rec.name.clone()),
                        file_path,
                        line_number: Some(infos[h].1),
                    },
                );
                let new_rec = SymbolRecord {
                    address: rec.address,
                    size: rec.size,
                    name: rec.name,
                    frames: FramesSource::Inline(frames_vec),
                };
                proof {
                    assert(new_rec.name@ == orig[j].name@);
                }
                out.push(new_rec);
            },
            None => {
                proof {
                    lemma_find_line_info_absent(gi, rec.address);
                }
                out.push(rec);
            },
        }
        proof {
            assert(input@ =~= orig.subrange(out@.len() as int, orig.len() as int));
        }
    }
    proof {
        assert forall|i: int, j2: int| 0 <= i < j2 < out@.len() implies out@[i].address
            < out@[j2].address by {
            assert(out@[i].address == orig[i].address);
            assert(out@[j2].address == orig[j2].address);
        }
    }
    out
}

/// Parses one line, performing exactly the state change of
/// `line_step_spec`.
fn parse_breakpad_line(
    line: &[u8],
    debug_id: &mut Option<DebugId>,
    recs: &mut Vec<SymbolRecord>,
    files: &mut Vec<(u32, String)>,
    last_func: &mut Option<u32>,
    infos: &mut Vec<(u32, u32, Option<String>)>,
    Ghost(gs): Ghost<Seq<BreakpadRecord>>,
    Ghost(gf): Ghost<Seq<(u32, Seq<u8>)>>,
    Ghost(gi): Ghost<Seq<BreakpadLineInfo>>,
) -> (g2: Ghost<(Seq<BreakpadRecord>, Seq<(u32, Seq<u8>)>, Seq<BreakpadLineInfo>)>)
    requires
        sym_sorted(old(recs)@),
        records_match(old(recs)@, gs),
        files_match(old(files)@, gf),
        infos_match(old(infos)@, gi),
    ensures
        sym_sorted(final(recs)@),
        records_match(final(recs)@, g2@.0),
        files_match(final(files)@, g2@.1),
        infos_match(final(infos)@, g2@.2),
        line_step_spec(
            line@,
            ParseState {
                id: *old(debug_id),
                files: gf,
                recs: gs,
                last_func: *old(last_func),
                infos: gi,
            },
        ) == (ParseState {
            id: *final(debug_id),
            files: g2@.1,
            recs: g2@.0,
            last_func: *final(last_func),
            infos: g2@.2,
        }),
{
    let n = line.len();
    if n >= 7 && line[0] == 77 && line[1] == 79 && line[2] == 68 && line[3] == 85 && line[4] == 76
        && line[5] == 69 && line[6] == 32 {
        // MODULE os arch id name
        let p1 = skip_field(line, 7);
        let p2 = skip_field(line, p1);
        let mut p3 = p2;
        while p3 < n && line[p3] != 32
            invariant
                p2 <= p3 <= n == line@.len(),
                forall|k: int| p2 <= k < p3 ==> #[trigger] line@[k] != 32,
            decreases n - p3,
        {
            p3 += 1;
        }
        proof {
            lemma_field_end_at(line@, p2 as int, p3 as int);
        }
        let id_field = vstd::slice::slice_subrange(line, p2, p3);
        if let Some(id) = DebugId::from_breakpad_bytes(id_field) {
            *debug_id = Some(id);
        }
        *last_func = None;
        return Ghost((gs, gf, gi));
    }
    if n >= 5 && line[0] == 70 && line[1] == 85 && line[2] == 78 && line[3] == 67 && line[4] == 32 {
        // FUNC [m] address size param_size name
        let mut pos: usize = 5;
        if pos + 2 <= n && line[pos] == 109 && line[pos + 1] == 32 {
            pos += 2;
        }
        if let Some((address, e1)) = parse_hex_field(line, pos) {
            if e1 < n && line[e1] == 32 {
                if let Some((size, e2)) = parse_hex_field(line, e1 + 1) {
                    if e2 < n && line[e2] == 32 {
                        if let Some((_param_size, e3)) = parse_hex_field(line, e2 + 1) {
                            let name_start = if e3 < n && line[e3] == 32 {
                                e3 + 1
                            } else {
                                e3
                            };
                            let name_bytes = vstd::slice::slice_to_vec(
                                vstd::slice::slice_subrange(line, name_start, n),
                            );
                            let ghost g = BreakpadRecord {
                                address,
                                size: Some(size),
                                name_bytes: line@.subrange(name_start as int, n as int),
                            };
                            let name = string_from_utf8_lossy(name_bytes);
                            let gs2 = insert_sorted(
                                recs,
                                SymbolRecord {
                                    address,
                                    size: Some(size),
                                    name,
                                    frames: FramesSource::Unavailable,
                                },
                                Ghost(gs),
                                Ghost(g),
                            );
                            *last_func = Some(address);
                            return Ghost((gs2@, gf, gi));
                        }
                    }
                }
            }
        }
        *last_func = None;
        return Ghost((gs, gf, gi));
    }
    if n >= 7 && line[0] == 80 && line[1] == 85 && line[2] == 66 && line[3] == 76 && line[4] == 73
        && line[5] == 67 && line[6] == 32 {
        // PUBLIC [m] address param_size name
        let mut pos: usize = 7;
        if pos + 2 <= n && line[pos] == 109 && line[pos + 1] == 32 {
            pos += 2;
        }
        if let Some((address, e1)) = parse_hex_field(line, pos) {
            if e1 < n && line[e1] == 32 {
                if let Some((_param_size, e2)) = parse_hex_field(line, e1 + 1) {
                    let name_start = if e2 < n && line[e2] == 32 {
                        e2 + 1
                    } else {
                        e2
                    };
                    let name_bytes = vstd::slice::slice_to_vec(
                        vstd::slice::slice_subrange(line, name_start, n),
                    );
                    let ghost g = BreakpadRecord {
                        address,
                        size: None,
                        name_bytes: line@.subrange(name_start as int, n as int),
                    };
                    let name = string_from_utf8_lossy(name_bytes);
                    let gs2 = insert_sorted(
                        recs,
                        SymbolRecord {
                            address,
                            size: None,
                            name,
                            frames: FramesSource::Unavailable,
                        },
                        Ghost(gs),
                        Ghost(g),
                    );
                    *last_func = None;
                    return Ghost((gs2@, gf, gi));
                }
            }
        }
        *last_func = None;
        return Ghost((gs, gf, gi));
    }
    if n >= 5 && line[0] == 70 && line[1] == 73 && line[2] == 76 && line[3] == 69 && line[4] == 32 {
        // FILE number name
        if let Some((num, e1)) = parse_dec_field(line, 5) {
            let name_start = if e1 < n && line[e1] == 32 {
                e1 + 1
            } else {
                e1
            };
            let name_bytes = vstd::slice::slice_to_vec(
                vstd::slice::slice_subrange(line, name_start, n),
            );
            let ghost fentry = (num, line@.subrange(name_start as int, n as int));
            let name = string_from_utf8_lossy(name_bytes);
            files.push((num, name));
            return Ghost((gs, gf.push(fentry), gi));
        }
        return Ghost((gs, gf, gi));
    }
    if n > 0 && ((48 <= line[0] && line[0] <= 57) || (97 <= line[0] && line[0] <= 102) || (65
        <= line[0] && line[0] <= 70)) {
        // address size line filenum: a line record of the pending function
        let func_address = match *last_func {
            Some(a) => a,
            None => {
                return Ghost((gs, gf, gi));
            },
        };
        if let Some((_address, e1)) = parse_hex_field(line, 0) {
            if e1 < n && line[e1] == 32 {
                if let Some((_size, e2)) = parse_hex_field(line, e1 + 1) {
                    if e2 < n && line[e2] == 32 {
                        if let Some((line_no, e3)) = parse_dec_field(line, e2 + 1) {
                            if e3 < n && line[e3] == 32 {
                                if let Some((filenum, _e4)) = parse_dec_field(line, e3 + 1) {
                                    let file = find_file_exec(files, filenum, Ghost(gf));
                                    let ghost li = BreakpadLineInfo {
                                        func_address,
                                        line: line_no,
                                        file_bytes: find_file(gf, filenum),
                                    };
                                    infos.push((func_address, line_no, file));
                                    *last_func = None;
                                    return Ghost((gs, gf, gi.push(li)));
                                }
                            }
                        }
                    }
                }
            }
        }
        return Ghost((gs, gf, gi));
    }
    Ghost((gs, gf, gi))
}

/// The name of the `FILE` record with this number, if any.
fn find_file_exec(files: &Vec<(u32, String)>, num: u32, Ghost(gf): Ghost<Seq<(u32, Seq<u8>)>>)
    -> (r: Option<String>)
    requires
        files_match(files@, gf),
    ensures
        match (r, find_file(gf, num)) {
            (Some(fs), Some(fb)) => valid_utf8(fb) ==> encode_utf8(fs@) == fb,
            (None, None) => true,
            _ => false,
        },
{
    let n = files.len();
    let mut p: usize = 0;
    while p < n
        invariant
            p <= n == files@.len(),
            files_match(files@, gf),
            forall|k: int| 0 <= k < p ==> (#[trigger] gf[k]).0 != num,
        decreases n - p,
    {
        if files[p].0 == num {
            proof {
                lemma_find_file_at(gf, num, p as int);
            }
            return Some(files[p].1.clone());
        }
        p += 1;
    }
    proof {
        lemma_find_file_absent(gf, num);
    }
    None
}

/// A first matching file number, with none earlier, pins `find_file` down.
proof fn lemma_find_file_at(gf: Seq<(u32, Seq<u8>)>, num: u32, p: int)
    requires
        0 <= p < gf.len(),
        gf[p].0 == num,
        forall|k: int| 0 <= k < p ==> (#[trigger] gf[k]).0 != num,
    ensures
        find_file(gf, num) == Some(gf[p].1),
    decreases p,
{
    if p > 0 {
        assert forall|k: int| 0 <= k < p - 1 implies (#[trigger] gf.skip(1)[k]).0 != num by {
            assert(gf.skip(1)[k] == gf[k + 1]);
        }
        assert(gf.skip(1)[p - 1] == gf[p]);
        lemma_find_file_at(gf.skip(1), num, p - 1);
    }
}

/// No file record carries this number.
proof fn lemma_find_file_absent(gf: Seq<(u32, Seq<u8>)>, num: u32)
    requires
        forall|k: int| 0 <= k < gf.len() ==> (#[trigger] gf[k]).0 != num,
    ensures
        find_file(gf, num) is None,
    decreases gf.len(),
{
    if gf.len() > 0 {
        assert forall|k: int| 0 <= k < gf.len() - 1 implies (#[trigger] gf.skip(1)[k]).0
            != num by {
            assert(gf.skip(1)[k] == gf[k + 1]);
        }
        lemma_find_file_absent(gf.skip(1), num);
    }
}

} // verus!
