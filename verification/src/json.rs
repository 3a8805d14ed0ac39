//! JSON trees over byte strings, with a serializer and a parser for the
//! emitted subset (no insignificant whitespace), specified byte for byte.
//! Strings are raw UTF-8 byte strings; quotes, backslashes and control bytes
//! are escaped on output and unescaped on input.

use crate::textfmt::{dec_bytes, hex_digit_lower, push_dec};
use vstd::prelude::*;

verus! {

broadcast use vstd::std_specs::vec::group_vec_axioms;

/// A JSON value. Object member order is kept.
pub enum Json {
    Bool(bool),
    UInt(u64),
    Str(Vec<u8>),
    Arr(Vec<Json>),
    Obj(Vec<(Vec<u8>, Json)>),
}

/// The escape sequence for one string byte.
pub open spec fn esc_byte(b: u8) -> Seq<u8> {
    if b == 34 {
        seq![92u8, 34u8]
    } else if b == 92 {
        seq![92u8, 92u8]
    } else if b < 32 {
        seq![92u8, 117u8, 48u8, 48u8, hex_digit_lower(b as int / 16), hex_digit_lower(b as int % 16)]
    } else {
        seq![b]
    }
}

/// The escaped form of a whole string body.
pub open spec fn esc_bytes(s: Seq<u8>) -> Seq<u8>
    decreases s.len(),
{
    if s.len() == 0 {
        Seq::empty()
    } else {
        esc_byte(s[0]) + esc_bytes(s.skip(1))
    }
}

/// A quoted, escaped JSON string.
pub open spec fn emit_string(s: Seq<u8>) -> Seq<u8> {
    seq![34u8] + esc_bytes(s) + seq![34u8]
}

/// The serialized bytes of a JSON value.
pub open spec fn emit_json(j: Json) -> Seq<u8>
    decreases j,
{
    match j {
        Json::Bool(b) => if b {
            seq![116u8, 114u8, 117u8, 101u8]
        } else {
            seq![102u8, 97u8, 108u8, 115u8, 101u8]
        },
        Json::UInt(v) => dec_bytes(v as int),
        Json::Str(s) => emit_string(s@),
        Json::Arr(items) => seq![91u8] + emit_arr(items@) + seq![93u8],
        Json::Obj(members) => seq![123u8] + emit_obj(members@) + seq![125u8],
    }
}

/// Comma-separated array elements.
pub open spec fn emit_arr(items: Seq<Json>) -> Seq<u8>
    decreases items,
{
    if items.len() == 0 {
        Seq::empty()
    } else if items.len() == 1 {
        emit_json(items[0])
    } else {
        emit_json(items[0]) + seq![44u8] + emit_arr(items.skip(1))
    }
}

/// Comma-separated `key:value` members.
pub open spec fn emit_obj(members: Seq<(Vec<u8>, Json)>) -> Seq<u8>
    decreases members,
{
    if members.len() == 0 {
        Seq::empty()
    } else if members.len() == 1 {
        emit_string(members[0].0@) + seq![58u8] + emit_json(members[0].1)
    } else {
        emit_string(members[0].0@) + seq![58u8] + emit_json(members[0].1) + seq![44u8] + emit_obj(
            members.skip(1),
        )
    }
}

/// Appending an element extends the serialized array by a comma (when not
/// first) and the element.
pub proof fn lemma_emit_arr_push(items: Seq<Json>, x: Json)
    ensures
        emit_arr(items.push(x)) =~= if items.len() == 0 {
            emit_json(x)
        } else {
            emit_arr(items) + seq![44u8] + emit_json(x)
        },
    decreases items.len(),
{
    if items.len() == 0 {
        assert(items.push(x)[0] == x);
    } else {
        lemma_emit_arr_push(items.skip(1), x);
        assert(items.push(x).skip(1) =~= items.skip(1).push(x));
        assert(items.push(x)[0] == items[0]);
        if items.len() == 1 {
            assert(items.skip(1).len() == 0);
        }
    }
}

/// Appending a member extends the serialized object likewise.
pub proof fn lemma_emit_obj_push(members: Seq<(Vec<u8>, Json)>, k: Vec<u8>, v: Json)
    ensures
        emit_obj(members.push((k, v))) =~= if members.len() == 0 {
            emit_string(k@) + seq![58u8] + emit_json(v)
        } else {
            emit_obj(members) + seq![44u8] + emit_string(k@) + seq![58u8] + emit_json(v)
        },
    decreases members.len(),
{
    if members.len() == 0 {
        assert(members.push((k, v))[0] == (k, v));
    } else {
        lemma_emit_obj_push(members.skip(1), k, v);
        assert(members.push((k, v)).skip(1) =~= members.skip(1).push((k, v)));
        assert(members.push((k, v))[0] == members[0]);
        if members.len() == 1 {
            assert(members.skip(1).len() == 0);
        }
    }
}


/// Ghost (deep) form of a JSON value, with mathematical sequences.
pub enum GJson {
    Bool(bool),
    UInt(u64),
    Str(Seq<u8>),
    Arr(Seq<GJson>),
    Obj(Seq<(Seq<u8>, GJson)>),
}

/// The deep view of a JSON tree.
pub open spec fn jview(j: Json) -> GJson
    decreases j,
{
    match j {
        Json::Bool(b) => GJson::Bool(b),
        Json::UInt(v) => GJson::UInt(v),
        Json::Str(s) => GJson::Str(s@),
        Json::Arr(items) => GJson::Arr(jview_seq(items@)),
        Json::Obj(members) => GJson::Obj(jview_members(members@)),
    }
}

/// Deep view of a sequence of values.
pub open spec fn jview_seq(items: Seq<Json>) -> Seq<GJson>
    decreases items,
{
    if items.len() == 0 {
        Seq::empty()
    } else {
        seq![jview(items[0])] + jview_seq(items.skip(1))
    }
}

/// Deep view of a sequence of members.
pub open spec fn jview_members(members: Seq<(Vec<u8>, Json)>) -> Seq<(Seq<u8>, GJson)>
    decreases members,
{
    if members.len() == 0 {
        Seq::empty()
    } else {
        seq![(members[0].0@, jview(members[0].1))] + jview_members(members.skip(1))
    }
}

/// ASCII decimal digit.
pub open spec fn is_digit(b: u8) -> bool {
    48 <= b <= 57
}

/// Reads digits from `pos` on, folding them onto `acc`; returns the value
/// and the position after the last digit.
pub open spec fn parse_digits(b: Seq<u8>, pos: int, acc: int) -> (int, int)
    decreases b.len() - pos,
{
    if 0 <= pos < b.len() && is_digit(b[pos]) {
        parse_digits(b, pos + 1, acc * 10 + (b[pos] - 48))
    } else {
        (acc, pos)
    }
}

/// Value of a lowercase-or-uppercase hex digit byte.
pub open spec fn hexval(b: u8) -> int {
    if 48 <= b <= 57 {
        b - 48
    } else if 97 <= b <= 102 {
        b - 87
    } else {
        b - 55
    }
}

/// The byte is a hex digit.
pub open spec fn is_hexdigit(b: u8) -> bool {
    (48 <= b <= 57) || (97 <= b <= 102) || (65 <= b <= 70)
}

/// Reads a string body after the opening quote, unescaping, up to and past
/// the closing quote.
pub open spec fn parse_string_body(b: Seq<u8>, pos: int) -> Option<(Seq<u8>, int)>
    decreases b.len() - pos,
{
    if pos < 0 || pos >= b.len() {
        None
    } else if b[pos] == 34 {
        Some((Seq::empty(), pos + 1))
    } else if b[pos] == 92 {
        if pos + 1 < b.len() && (b[pos + 1] == 34 || b[pos + 1] == 92) {
            match parse_string_body(b, pos + 2) {
                Some((s, end)) => Some((seq![b[pos + 1]] + s, end)),
                None => None,
            }
        } else if pos + 5 < b.len() && b[pos + 1] == 117 && b[pos + 2] == 48 && b[pos + 3] == 48
            && is_hexdigit(b[pos + 4]) && is_hexdigit(b[pos + 5]) {
            match parse_string_body(b, pos + 6) {
                Some((s, end)) => Some(
                    (seq![(hexval(b[pos + 4]) * 16 + hexval(b[pos + 5])) as u8] + s, end),
                ),
                None => None,
            }
        } else {
            None
        }
    } else {
        match parse_string_body(b, pos + 1) {
            Some((s, end)) => Some((seq![b[pos]] + s, end)),
            None => None,
        }
    }
}

/// Reads one JSON value at `pos`.
pub open spec fn parse_value(b: Seq<u8>, pos: int) -> Option<(GJson, int)>
    decreases b.len() - pos, 0int,
{
    if pos < 0 || pos >= b.len() {
        None
    } else if b[pos] == 116 {
        if pos + 4 <= b.len() && b[pos + 1] == 114 && b[pos + 2] == 117 && b[pos + 3] == 101 {
            Some((GJson::Bool(true), pos + 4))
        } else {
            None
        }
    } else if b[pos] == 102 {
        if pos + 5 <= b.len() && b[pos + 1] == 97 && b[pos + 2] == 108 && b[pos + 3] == 115
            && b[pos + 4] == 101 {
            Some((GJson::Bool(false), pos + 5))
        } else {
            None
        }
    } else if is_digit(b[pos]) {
        let (v, end) = parse_digits(b, pos, 0);
        if v <= u64::MAX {
            Some((GJson::UInt(v as u64), end))
        } else {
            None
        }
    } else if b[pos] == 34 {
        match parse_string_body(b, pos + 1) {
            Some((s, end)) => Some((GJson::Str(s), end)),
            None => None,
        }
    } else if b[pos] == 91 {
        if pos + 1 < b.len() && b[pos + 1] == 93 {
            Some((GJson::Arr(Seq::empty()), pos + 2))
        } else {
            match parse_arr_items(b, pos + 1) {
                Some((items, end)) => Some((GJson::Arr(items), end)),
                None => None,
            }
        }
    } else if b[pos] == 123 {
        if pos + 1 < b.len() && b[pos + 1] == 125 {
            Some((GJson::Obj(Seq::empty()), pos + 2))
        } else {
            match parse_obj_members(b, pos + 1) {
                Some((members, end)) => Some((GJson::Obj(members), end)),
                None => None,
            }
        }
    } else {
        None
    }
}

/// Reads one or more comma-separated values and the closing bracket.
pub open spec fn parse_arr_items(b: Seq<u8>, pos: int) -> Option<(Seq<GJson>, int)>
    decreases b.len() - pos, 1int,
{
    if pos < 0 {
        None
    } else {
        match parse_value(b, pos) {
            Some((v, end)) => if end <= pos {
                None
            } else if end < b.len() && b[end] == 44 {
                match parse_arr_items(b, end + 1) {
                    Some((items, end2)) => Some((seq![v] + items, end2)),
                    None => None,
                }
            } else if end < b.len() && b[end] == 93 {
                Some((seq![v], end + 1))
            } else {
                None
            },
            None => None,
        }
    }
}

/// Reads one or more comma-separated `key:value` members and the closing
/// brace.
pub open spec fn parse_obj_members(b: Seq<u8>, pos: int) -> Option<(Seq<(Seq<u8>, GJson)>, int)>
    decreases b.len() - pos, 1int,
{
    if pos < 0 || pos >= b.len() || b[pos] != 34 {
        None
    } else {
        match parse_string_body(b, pos + 1) {
            Some((k, end1)) => if end1 <= pos || end1 >= b.len() || b[end1] != 58 {
                None
            } else {
                match parse_value(b, end1 + 1) {
                    Some((v, end2)) => if end2 <= end1 {
                        None
                    } else if end2 < b.len() && b[end2] == 44 {
                        match parse_obj_members(b, end2 + 1) {
                            Some((members, end3)) => Some((seq![(k, v)] + members, end3)),
                            None => None,
                        }
                    } else if end2 < b.len() && b[end2] == 125 {
                        Some((seq![(k, v)], end2 + 1))
                    } else {
                        None
                    },
                    None => None,
                }
            },
            None => None,
        }
    }
}

/// Appends the quoted, escaped form of `s`.
pub fn write_string(out: &mut Vec<u8>, s: &[u8])
    ensures
        final(out)@ =~= old(out)@ + emit_string(s@),
{
    out.push(34);
    let n = s.len();
    let mut i: usize = 0;
    while i < n
        invariant
            i <= n == s@.len(),
            out@ =~= old(out)@ + seq![34u8] + esc_bytes(s@.subrange(0, i as int)),
        decreases n - i,
    {
        let b = s[i];
        if b == 34 {
            out.push(92);
            out.push(34);
        } else if b == 92 {
            out.push(92);
            out.push(92);
        } else if b < 32 {
            out.push(92);
            out.push(117);
            out.push(48);
            out.push(48);
            let hi = b / 16;
            let lo = b % 16;
            out.push(if hi < 10 { 48 + hi } else { 87 + hi });
            out.push(if lo < 10 { 48 + lo } else { 87 + lo });
        } else {
            out.push(b);
        }
        proof {
            lemma_esc_bytes_snoc(s@.subrange(0, i as int), s@[i as int]);
            assert(s@.subrange(0, i + 1) =~= s@.subrange(0, i as int).push(s@[i as int]));
        }
        i += 1;
    }
    out.push(34);
    proof {
        assert(s@.subrange(0, n as int) =~= s@);
    }
}

/// Escaping one more byte appends that byte's escape sequence.
proof fn lemma_esc_bytes_snoc(s: Seq<u8>, x: u8)
    ensures
        esc_bytes(s.push(x)) =~= esc_bytes(s) + esc_byte(x),
    decreases s.len(),
{
    let sx = s.push(x);
    if s.len() == 0 {
        assert(sx[0] == x);
        assert(sx.skip(1) =~= Seq::<u8>::empty());
        assert(esc_bytes(sx) =~= esc_byte(x) + esc_bytes(sx.skip(1)));
        assert(esc_bytes(sx.skip(1)) =~= Seq::<u8>::empty());
    } else {
        lemma_esc_bytes_snoc(s.skip(1), x);
        assert(sx[0] == s[0]);
        assert(sx.skip(1) =~= s.skip(1).push(x));
        assert(esc_bytes(sx) =~= esc_byte(s[0]) + esc_bytes(s.skip(1).push(x)));
        assert(esc_bytes(s) =~= esc_byte(s[0]) + esc_bytes(s.skip(1)));
    }
}

/// Appends the serialized bytes of `j`.
#[verifier::loop_isolation(false)]
#[verifier::rlimit(80)]
pub fn write_json(out: &mut Vec<u8>, j: &Json)
    ensures
        final(out)@ =~= old(out)@ + emit_json(*j),
    decreases *j,
{
    match j {
        Json::Bool(b) => {
            if *b {
                out.push(116);
                out.push(114);
                out.push(117);
                out.push(101);
            } else {
                out.push(102);
                out.push(97);
                out.push(108);
                out.push(115);
                out.push(101);
            }
        },
        Json::UInt(v) => {
            push_dec(out, *v);
        },
        Json::Str(s) => {
            write_string(out, s.as_slice());
        },
        Json::Arr(items) => {
            out.push(91);
            let ghost base = out@;
            let n = items.len();
            let mut k: usize = 0;
            while k < n
                invariant
                    k <= n == items@.len(),
                    out@ =~= base + emit_arr(items@.subrange(0, k as int)),
                decreases n - k,
            {
                if k > 0 {
                    out.push(44);
                }
                proof {
                    assert(decreases_to!(*j => *items));
                    assert(decreases_to!(*items => items@));
                    assert(decreases_to!(items@ => items@[k as int]));
                }
                write_json(out, &items[k]);
                proof {
                    lemma_emit_arr_push(items@.subrange(0, k as int), items@[k as int]);
                    assert(items@.subrange(0, k + 1) =~= items@.subrange(0, k as int).push(
                        items@[k as int],
                    ));
                }
                k += 1;
            }
            proof {
                assert(items@.subrange(0, n as int) =~= items@);
            }
            out.push(93);
        },
        Json::Obj(members) => {
            out.push(123);
            let ghost base = out@;
            let n = members.len();
            let mut k: usize = 0;
            while k < n
                invariant
                    k <= n == members@.len(),
                    out@ =~= base + emit_obj(members@.subrange(0, k as int)),
                decreases n - k,
            {
                if k > 0 {
                    out.push(44);
                }
                write_string(out, members[k].0.as_slice());
                out.push(58);
                proof {
                    assert(decreases_to!(*j => *members));
                    assert(decreases_to!(*members => members@));
                    assert(decreases_to!(members@ => members@[k as int]));
                    assert(decreases_to!(members@[k as int] => members@[k as int].1));
                }
                write_json(out, &members[k].1);
                proof {
                    lemma_emit_obj_push(
                        members@.subrange(0, k as int),
                        members@[k as int].0,
                        members@[k as int].1,
                    );
                    assert(members@.subrange(0, k + 1) =~= members@.subrange(0, k as int).push(
                        members@[k as int],
                    ));
                    assert(members@[k as int] == (members@[k as int].0, members@[k as int].1));
                }
                k += 1;
            }
            proof {
                assert(members@.subrange(0, n as int) =~= members@);
            }
            out.push(125);
        },
    }
}

/// Serializes a JSON value.
pub fn to_bytes(j: &Json) -> (r: Vec<u8>)
    ensures
        r@ =~= emit_json(*j),
{
    let mut out: Vec<u8> = Vec::new();
    write_json(&mut out, j);
    out
}


/// `10^n`.
pub open spec fn pow10(n: nat) -> int
    decreases n,
{
    if n == 0 {
        1
    } else {
        10 * pow10((n - 1) as nat)
    }
}

pub proof fn lemma_pow10_pos(n: nat)
    ensures
        pow10(n) >= 1,
    decreases n,
{
    if n > 0 {
        lemma_pow10_pos((n - 1) as nat);
    }
}

/// Digits folded onto an accumulator.
pub open spec fn seq_digit_val(s: Seq<u8>, acc: int) -> int
    decreases s.len(),
{
    if s.len() == 0 {
        acc
    } else {
        seq_digit_val(s.skip(1), acc * 10 + (s[0] - 48))
    }
}

proof fn lemma_seq_digit_val_push(s: Seq<u8>, d: u8, acc: int)
    ensures
        seq_digit_val(s.push(d), acc) == seq_digit_val(s, acc) * 10 + (d - 48),
    decreases s.len(),
{
    if s.len() == 0 {
        assert(s.push(d)[0] == d);
        assert(s.push(d).skip(1) =~= Seq::<u8>::empty());
        assert(seq_digit_val(s.push(d), acc) == seq_digit_val(
            s.push(d).skip(1),
            acc * 10 + (s.push(d)[0] - 48),
        ));
        assert(seq_digit_val(Seq::<u8>::empty(), acc * 10 + (d - 48)) == acc * 10 + (d - 48));
    } else {
        assert(s.push(d)[0] == s[0]);
        assert(s.push(d).skip(1) =~= s.skip(1).push(d));
        lemma_seq_digit_val_push(s.skip(1), d, acc * 10 + (s[0] - 48));
        assert(seq_digit_val(s.push(d), acc) == seq_digit_val(
            s.skip(1).push(d),
            acc * 10 + (s[0] - 48),
        ));
        assert(seq_digit_val(s, acc) == seq_digit_val(s.skip(1), acc * 10 + (s[0] - 48)));
    }
}

/// The decimal digits of `v` fold back to `v`.
proof fn lemma_dec_bytes_val(v: int, acc: int)
    requires
        v >= 0,
    ensures
        seq_digit_val(dec_bytes(v), acc) == acc * pow10(dec_bytes(v).len()) + v,
    decreases v,
{
    if v < 10 {
        assert(dec_bytes(v) =~= seq![(48 + v) as u8]);
        assert(dec_bytes(v).skip(1) =~= Seq::<u8>::empty());
        assert(pow10(0) == 1);
        assert(pow10(1) == 10 * pow10(0));
        assert((48 + v) as u8 - 48 == v);
        assert(seq_digit_val(dec_bytes(v), acc) == seq_digit_val(
            dec_bytes(v).skip(1),
            acc * 10 + ((48 + v) as u8 - 48),
        ));
    } else {
        lemma_dec_bytes_val(v / 10, acc);
        lemma_seq_digit_val_push(dec_bytes(v / 10), (48 + v % 10) as u8, acc);
        assert((48 + v % 10) as u8 - 48 == v % 10);
        assert(dec_bytes(v) == dec_bytes(v / 10).push((48 + v % 10) as u8));
        assert(dec_bytes(v).len() == dec_bytes(v / 10).len() + 1);
        assert(pow10(dec_bytes(v).len()) == 10 * pow10(dec_bytes(v / 10).len()));
        assert(seq_digit_val(dec_bytes(v), acc) == (acc * pow10(dec_bytes(v / 10).len()) + v / 10)
            * 10 + v % 10) by {
            assert(seq_digit_val(dec_bytes(v / 10), acc) == acc * pow10(dec_bytes(v / 10).len())
                + v / 10);
        }
        assert((acc * pow10(dec_bytes(v / 10).len()) + v / 10) * 10 + v % 10 == acc * (10 * pow10(
            dec_bytes(v / 10).len(),
        )) + (v / 10 * 10 + v % 10)) by (nonlinear_arith);
    }
}

/// `parse_digits` consumes exactly a maximal run of digits.
proof fn lemma_parse_digits_chunk(b: Seq<u8>, pos: int, end: int, acc: int)
    requires
        0 <= pos <= end <= b.len(),
        forall|k: int| pos <= k < end ==> is_digit(#[trigger] b[k]),
        end == b.len() || !is_digit(b[end]),
    ensures
        parse_digits(b, pos, acc) == (seq_digit_val(b.subrange(pos, end), acc), end),
    decreases end - pos,
{
    if pos < end {
        lemma_parse_digits_chunk(b, pos + 1, end, acc * 10 + (b[pos] - 48));
        assert(b.subrange(pos, end)[0] == b[pos]);
        assert(b.subrange(pos, end).skip(1) =~= b.subrange(pos + 1, end));
    } else {
        assert(b.subrange(pos, end) =~= Seq::<u8>::empty());
    }
}

/// One byte of a matched subrange.
proof fn lemma_subrange_byte(b: Seq<u8>, pos: int, e: Seq<u8>, i: int)
    requires
        0 <= pos,
        pos + e.len() <= b.len(),
        b.subrange(pos, pos + e.len() as int) =~= e,
        0 <= i < e.len(),
    ensures
        b[pos + i] == e[i],
{
    assert(b.subrange(pos, pos + e.len() as int)[i] == b[pos + i]);
}

/// A matched subrange matches on any inner window.
proof fn lemma_subrange_window(b: Seq<u8>, pos: int, e: Seq<u8>, off: int, sub: Seq<u8>)
    requires
        0 <= pos,
        pos + e.len() <= b.len(),
        b.subrange(pos, pos + e.len() as int) =~= e,
        0 <= off,
        off + sub.len() <= e.len(),
        e.subrange(off, off + sub.len() as int) =~= sub,
    ensures
        b.subrange(pos + off, pos + off + sub.len() as int) =~= sub,
{
    assert forall|i: int| 0 <= i < sub.len() implies b.subrange(
        pos + off,
        pos + off + sub.len() as int,
    )[i] == sub[i] by {
        assert(b.subrange(pos, pos + e.len() as int)[off + i] == b[pos + off + i]);
        assert(e.subrange(off, off + sub.len() as int)[i] == e[off + i]);
    }
}

/// Serialized values are non-empty and start with a byte that picks their
/// branch: `t`, `f`, a digit, a quote, a bracket or a brace.
proof fn lemma_emit_shape(j: Json)
    ensures
        emit_json(j).len() >= 1,
        emit_json(j)[0] == 116 || emit_json(j)[0] == 102 || is_digit(emit_json(j)[0])
            || emit_json(j)[0] == 34 || emit_json(j)[0] == 91 || emit_json(j)[0] == 123,
{
    match j {
        Json::UInt(v) => {
            crate::textfmt::lemma_dec_bytes_digits(v as int);
        },
        _ => {},
    }
}

/// Unescaping the escaped form of `s`, followed by a closing quote, yields
/// `s` back and stops right after the quote.
proof fn lemma_parse_string_emit(s: Seq<u8>, b: Seq<u8>, pos: int)
    requires
        0 <= pos,
        pos + esc_bytes(s).len() + 1 <= b.len(),
        b.subrange(pos, pos + esc_bytes(s).len() + 1) =~= esc_bytes(s) + seq![34u8],
    ensures
        parse_string_body(b, pos) == Some((s, pos + esc_bytes(s).len() + 1)),
    decreases s.len(),
{
    let e = esc_bytes(s) + seq![34u8];
    if s.len() == 0 {
        lemma_subrange_byte(b, pos, e, 0);
    } else {
        let x = s[0];
        let tail = s.skip(1);
        assert(esc_bytes(s) =~= esc_byte(x) + esc_bytes(tail));
        let k = esc_byte(x).len() as int;
        assert forall|i: int| 0 <= i < k implies e[i] == esc_byte(x)[i] by {
            assert(e[i] == esc_bytes(s)[i]);
        }
        assert(e.subrange(k, e.len() as int) =~= esc_bytes(tail) + seq![34u8]);
        lemma_subrange_window(b, pos, e, k, esc_bytes(tail) + seq![34u8]);
        lemma_parse_string_emit(tail, b, pos + k);
        if x == 34 {
            lemma_subrange_byte(b, pos, e, 0);
            lemma_subrange_byte(b, pos, e, 1);
            assert(b[pos] == 92 && b[pos + 1] == 34);
            assert(seq![b[pos + 1]] + tail =~= s);
        } else if x == 92 {
            lemma_subrange_byte(b, pos, e, 0);
            lemma_subrange_byte(b, pos, e, 1);
            assert(b[pos] == 92 && b[pos + 1] == 92);
            assert(seq![b[pos + 1]] + tail =~= s);
        } else if x < 32 {
            lemma_subrange_byte(b, pos, e, 0);
            lemma_subrange_byte(b, pos, e, 1);
            lemma_subrange_byte(b, pos, e, 2);
            lemma_subrange_byte(b, pos, e, 3);
            lemma_subrange_byte(b, pos, e, 4);
            lemma_subrange_byte(b, pos, e, 5);
            assert(b[pos] == 92 && b[pos + 1] == 117 && b[pos + 2] == 48 && b[pos + 3] == 48);
            let h1 = b[pos + 4];
            let h2 = b[pos + 5];
            assert(h1 == hex_digit_lower(x as int / 16) && h2 == hex_digit_lower(x as int % 16));
            assert(is_hexdigit(h1) && is_hexdigit(h2));
            assert(hexval(h1) == x as int / 16 && hexval(h2) == x as int % 16);
            assert((hexval(h1) * 16 + hexval(h2)) as u8 == x);
            assert(seq![(hexval(b[pos + 4]) * 16 + hexval(b[pos + 5])) as u8] + tail =~= s);
        } else {
            lemma_subrange_byte(b, pos, e, 0);
            assert(b[pos] == x);
            assert(x != 34 && x != 92 && x >= 32);
            assert(seq![b[pos]] + tail =~= s);
        }
    }
}

/// Parsing the serialized form of a value yields its deep view and stops
/// right after it, provided no digit follows directly.
proof fn lemma_parse_value_emit(j: Json, b: Seq<u8>, pos: int)
    requires
        0 <= pos,
        pos + emit_json(j).len() <= b.len(),
        b.subrange(pos, pos + emit_json(j).len() as int) =~= emit_json(j),
        pos + emit_json(j).len() == b.len() || !is_digit(b[pos + emit_json(j).len()]),
    ensures
        parse_value(b, pos) == Some((jview(j), pos + emit_json(j).len())),
    decreases j, 0int,
{
    let e = emit_json(j);
    lemma_emit_shape(j);
    lemma_subrange_byte(b, pos, e, 0);
    match j {
        Json::Bool(v) => {
            if v {
                lemma_subrange_byte(b, pos, e, 1);
                lemma_subrange_byte(b, pos, e, 2);
                lemma_subrange_byte(b, pos, e, 3);
            } else {
                lemma_subrange_byte(b, pos, e, 1);
                lemma_subrange_byte(b, pos, e, 2);
                lemma_subrange_byte(b, pos, e, 3);
                lemma_subrange_byte(b, pos, e, 4);
            }
        },
        Json::UInt(v) => {
            crate::textfmt::lemma_dec_bytes_digits(v as int);
            assert forall|k: int| pos <= k < pos + e.len() implies is_digit(#[trigger] b[k]) by {
                lemma_subrange_byte(b, pos, e, k - pos);
            }
            lemma_parse_digits_chunk(b, pos, pos + e.len(), 0);
            assert(b.subrange(pos, pos + e.len() as int) =~= dec_bytes(v as int));
            lemma_dec_bytes_val(v as int, 0);
        },
        Json::Str(sv) => {
            assert(e.subrange(1, e.len() as int) =~= esc_bytes(sv@) + seq![34u8]);
            lemma_subrange_window(b, pos, e, 1, esc_bytes(sv@) + seq![34u8]);
            lemma_parse_string_emit(sv@, b, pos + 1);
        },
        Json::Arr(items) => {
            if items@.len() == 0 {
                assert(emit_arr(items@) =~= Seq::<u8>::empty());
                assert(e =~= seq![91u8, 93u8]);
                lemma_subrange_byte(b, pos, e, 1);
            } else {
                assert(e.subrange(1, e.len() as int) =~= emit_arr(items@) + seq![93u8]);
                lemma_subrange_window(b, pos, e, 1, emit_arr(items@) + seq![93u8]);
                lemma_parse_arr_items_emit(items@, b, pos + 1);
                lemma_emit_first_byte_not(items@[0], 93);
                lemma_subrange_byte(b, pos + 1, emit_arr(items@) + seq![93u8], 0);
                if items@.len() == 1 {
                    assert(emit_arr(items@)[0] == emit_json(items@[0])[0]);
                } else {
                    assert(emit_arr(items@)[0] == emit_json(items@[0])[0]);
                }
                assert(b[pos + 1] != 93);
            }
        },
        Json::Obj(members) => {
            if members@.len() == 0 {
                assert(emit_obj(members@) =~= Seq::<u8>::empty());
                assert(e =~= seq![123u8, 125u8]);
                lemma_subrange_byte(b, pos, e, 1);
            } else {
                assert(e.subrange(1, e.len() as int) =~= emit_obj(members@) + seq![125u8]);
                lemma_subrange_window(b, pos, e, 1, emit_obj(members@) + seq![125u8]);
                lemma_parse_obj_members_emit(members@, b, pos + 1);
                lemma_subrange_byte(b, pos + 1, emit_obj(members@) + seq![125u8], 0);
                if members@.len() == 1 {
                    assert(emit_obj(members@)[0] == emit_string(members@[0].0@)[0]);
                } else {
                    assert(emit_obj(members@)[0] == emit_string(members@[0].0@)[0]);
                }
                assert(b[pos + 1] == 34);
                assert(b[pos + 1] != 125);
            }
        },
    }
}

/// The first serialized byte of a value is never the given closing byte.
proof fn lemma_emit_first_byte_not(j: Json, c: u8)
    requires
        c == 93 || c == 125,
    ensures
        emit_json(j).len() >= 1 && emit_json(j)[0] != c,
{
    lemma_emit_shape(j);
}

/// Parsing the serialized elements of a non-empty array, up to and past the
/// closing bracket, yields their deep views.
proof fn lemma_parse_arr_items_emit(items: Seq<Json>, b: Seq<u8>, pos: int)
    requires
        items.len() >= 1,
        0 <= pos,
        pos + emit_arr(items).len() + 1 <= b.len(),
        b.subrange(pos, pos + emit_arr(items).len() + 1) =~= emit_arr(items) + seq![93u8],
    ensures
        parse_arr_items(b, pos) == Some((jview_seq(items), pos + emit_arr(items).len() + 1)),
    decreases items, 1int,
{
    let e = emit_arr(items) + seq![93u8];
    let e0 = emit_json(items[0]);
    lemma_emit_shape(items[0]);
    if items.len() == 1 {
        assert(emit_arr(items) =~= e0);
        assert(e.subrange(0, e0.len() as int) =~= e0);
        lemma_subrange_window(b, pos, e, 0, e0);
        lemma_subrange_byte(b, pos, e, e0.len() as int);
        assert(b[pos + e0.len()] == 93);
        lemma_parse_value_emit(items[0], b, pos);
        assert(jview_seq(items) =~= seq![jview(items[0])]);
    } else {
        assert(emit_arr(items) =~= e0 + seq![44u8] + emit_arr(items.skip(1)));
        assert(e.subrange(0, e0.len() as int) =~= e0);
        lemma_subrange_window(b, pos, e, 0, e0);
        lemma_subrange_byte(b, pos, e, e0.len() as int);
        assert(b[pos + e0.len()] == 44);
        lemma_parse_value_emit(items[0], b, pos);
        assert(e.subrange(e0.len() as int + 1, e.len() as int) =~= emit_arr(items.skip(1)) + seq![93u8]);
        lemma_subrange_window(b, pos, e, e0.len() as int + 1, emit_arr(items.skip(1)) + seq![93u8]);
        lemma_parse_arr_items_emit(items.skip(1), b, pos + e0.len() + 1);
        assert(seq![jview(items[0])] + jview_seq(items.skip(1)) =~= jview_seq(items));
    }
}

/// Parsing the serialized members of a non-empty object, up to and past the
/// closing brace, yields their deep views.
proof fn lemma_parse_obj_members_emit(members: Seq<(Vec<u8>, Json)>, b: Seq<u8>, pos: int)
    requires
        members.len() >= 1,
        0 <= pos,
        pos + emit_obj(members).len() + 1 <= b.len(),
        b.subrange(pos, pos + emit_obj(members).len() + 1) =~= emit_obj(members) + seq![125u8],
    ensures
        parse_obj_members(b, pos) == Some(
            (jview_members(members), pos + emit_obj(members).len() + 1),
        ),
    decreases members, 1int,
{
    let e = emit_obj(members) + seq![125u8];
    let k0 = members[0].0@;
    let v0 = members[0].1;
    let ek = emit_string(k0);
    let ev = emit_json(v0);
    lemma_emit_shape(v0);
    let head = ek + seq![58u8] + ev;
    if members.len() == 1 {
        assert(emit_obj(members) =~= head);
        assert(e.subrange(0, ek.len() as int) =~= ek);
        lemma_subrange_window(b, pos, e, 0, ek);
        lemma_subrange_byte(b, pos, e, 0);
        assert(ek.subrange(1, ek.len() as int) =~= esc_bytes(k0) + seq![34u8]);
        lemma_subrange_window(b, pos + 0, ek, 1, esc_bytes(k0) + seq![34u8]);
        lemma_parse_string_emit(k0, b, pos + 1);
        lemma_subrange_byte(b, pos, e, ek.len() as int);
        assert(b[pos + ek.len()] == 58);
        assert(e.subrange(ek.len() as int + 1, ek.len() + 1 + ev.len() as int) =~= ev);
        lemma_subrange_window(b, pos, e, ek.len() as int + 1, ev);
        lemma_subrange_byte(b, pos, e, ek.len() as int + 1 + ev.len() as int);
        assert(b[pos + ek.len() + 1 + ev.len()] == 125);
        lemma_parse_value_emit(v0, b, pos + ek.len() + 1);
        assert(jview_members(members) =~= seq![(k0, jview(v0))]);
    } else {
        assert(emit_obj(members) =~= head + seq![44u8] + emit_obj(members.skip(1)));
        assert(e.subrange(0, ek.len() as int) =~= ek);
        lemma_subrange_window(b, pos, e, 0, ek);
        lemma_subrange_byte(b, pos, e, 0);
        assert(ek.subrange(1, ek.len() as int) =~= esc_bytes(k0) + seq![34u8]);
        lemma_subrange_window(b, pos + 0, ek, 1, esc_bytes(k0) + seq![34u8]);
        lemma_parse_string_emit(k0, b, pos + 1);
        lemma_subrange_byte(b, pos, e, ek.len() as int);
        assert(b[pos + ek.len()] == 58);
        assert(e.subrange(ek.len() as int + 1, ek.len() + 1 + ev.len() as int) =~= ev);
        lemma_subrange_window(b, pos, e, ek.len() as int + 1, ev);
        lemma_subrange_byte(b, pos, e, ek.len() as int + 1 + ev.len() as int);
        assert(b[pos + ek.len() + 1 + ev.len()] == 44);
        lemma_parse_value_emit(v0, b, pos + ek.len() + 1);
        let rest_off = head.len() + 1;
        assert(e.subrange(rest_off as int, e.len() as int) =~= emit_obj(members.skip(1))
            + seq![125u8]);
        lemma_subrange_window(b, pos, e, rest_off as int, emit_obj(members.skip(1)) + seq![125u8]);
        lemma_parse_obj_members_emit(members.skip(1), b, pos + rest_off);
        assert(seq![(k0, jview(v0))] + jview_members(members.skip(1)) =~= jview_members(members));
    }
}

/// Serializing a JSON tree and parsing the bytes back reproduces the same
/// structure, consuming the whole input.
pub proof fn lemma_json_round_trip(j: Json)
    ensures
        parse_value(emit_json(j), 0) == Some((jview(j), emit_json(j).len() as int)),
{
    let b = emit_json(j);
    assert(b.subrange(0, b.len() as int) =~= b);
    lemma_parse_value_emit(j, b, 0);
}

} // verus!
