//! Build identity of a binary: a 16-byte UUID plus an appendix (the PDB age
//! on Windows, zero elsewhere), written in breakpad form as 33 or more
//! uppercase hex digits.

use crate::textfmt::{hex_bytes_fixed_upper, hex_bytes_upper, push_hex_fixed_upper, push_hex_upper};
use vstd::prelude::*;
use vstd::string::StringSliceAdditionalSpecFns;

verus! {

/// Debug id of a binary: UUID (two big-endian halves) and appendix.
#[derive(Clone, Copy, PartialEq, Eq, Structural, Debug, Hash)]
pub struct DebugId {
    pub uuid_hi: u64,
    pub uuid_lo: u64,
    pub appendix: u32,
}

/// A code id, as printed from the binary's own headers.
#[derive(Clone, Debug)]
pub struct CodeId(pub String);

/// The byte is an ASCII hex digit.
pub open spec fn is_hex_byte(b: u8) -> bool {
    (48 <= b <= 57) || (97 <= b <= 102) || (65 <= b <= 70)
}

/// Value of an ASCII hex digit.
pub open spec fn hex_nibble(b: u8) -> int {
    if 48 <= b <= 57 {
        b - 48
    } else if 97 <= b <= 102 {
        b - 87
    } else {
        b - 55
    }
}

/// Value of a big-endian string of hex digits.
pub open spec fn hex_seq_val(s: Seq<u8>) -> int
    decreases s.len(),
{
    if s.len() == 0 {
        0
    } else {
        hex_seq_val(s.drop_last()) * 16 + hex_nibble(s.last())
    }
}

/// A well-formed breakpad id: 32 UUID digits plus 1 to 8 appendix digits.
pub open spec fn valid_breakpad_bytes(b: Seq<u8>) -> bool {
    &&& 33 <= b.len() <= 40
    &&& forall|i: int| 0 <= i < b.len() ==> is_hex_byte(#[trigger] b[i])
}

/// The debug id spelled by a well-formed breakpad digit string.
pub open spec fn debug_id_of_bytes(b: Seq<u8>) -> DebugId
    recommends
        valid_breakpad_bytes(b),
{
    DebugId {
        uuid_hi: hex_seq_val(b.subrange(0, 16)) as u64,
        uuid_lo: hex_seq_val(b.subrange(16, 32)) as u64,
        appendix: hex_seq_val(b.subrange(32, b.len() as int)) as u32,
    }
}

/// The breakpad form of a debug id: 32 uppercase UUID digits, then the
/// appendix in minimal uppercase hex.
pub open spec fn breakpad_bytes_spec(id: DebugId) -> Seq<u8> {
    hex_bytes_fixed_upper(id.uuid_hi as int, 16) + hex_bytes_fixed_upper(id.uuid_lo as int, 16)
        + hex_bytes_upper(id.appendix as int)
}

impl DebugId {
    /// Constructs the id from its parts.
    pub fn from_parts(uuid_hi: u64, uuid_lo: u64, appendix: u32) -> (r: DebugId)
        ensures
            r == (DebugId { uuid_hi, uuid_lo, appendix }),
    {
        DebugId { uuid_hi, uuid_lo, appendix }
    }

    /// Writes the id in breakpad form.
    pub fn breakpad_bytes(&self) -> (r: Vec<u8>)
        ensures
            r@ =~= breakpad_bytes_spec(*self),
    {
        let mut out: Vec<u8> = Vec::new();
        push_hex_fixed_upper(&mut out, self.uuid_hi, 16);
        push_hex_fixed_upper(&mut out, self.uuid_lo, 16);
        push_hex_upper(&mut out, self.appendix as u64);
        out
    }

    /// Parses a breakpad id: exactly when the input is 32 UUID hex digits
    /// followed by 1 to 8 appendix hex digits, the parts are their values.
    pub fn from_breakpad_bytes(b: &[u8]) -> (r: Option<DebugId>)
        ensures
            match r {
                Some(id) => {
                    &&& valid_breakpad_bytes(b@)
                    &&& id == debug_id_of_bytes(b@)
                    &&& id.uuid_hi == hex_seq_val(b@.subrange(0, 16))
                    &&& id.uuid_lo == hex_seq_val(b@.subrange(16, 32))
                    &&& id.appendix == hex_seq_val(b@.subrange(32, b@.len() as int))
                },
                None => !valid_breakpad_bytes(b@),
            },
    {
        let n = b.len();
        if n < 33 || n > 40 {
            return None;
        }
        let mut i: usize = 0;
        let mut hi: u64 = 0;
        while i < 16
            invariant
                i <= 16 <= n == b@.len(),
                forall|k: int| 0 <= k < i ==> is_hex_byte(#[trigger] b@[k]),
                hi == hex_seq_val(b@.subrange(0, i as int)),
            decreases 16 - i,
        {
            let ghost pre = b@.subrange(0, i as int);
            let d = b[i];
            let v: u64 = if 48 <= d && d <= 57 {
                (d - 48) as u64
            } else if 97 <= d && d <= 102 {
                (d - 87) as u64
            } else if 65 <= d && d <= 70 {
                (d - 55) as u64
            } else {
                return None;
            };
            proof {
                lemma_hex_seq_val_range(pre);
                lemma_pow16_monotone(pre.len() as nat, 15);
                assert(pow16(15) == 0x1000_0000_0000_0000) by {
                    reveal_with_fuel(pow16, 16);
                }
                assert(b@.subrange(0, i + 1).drop_last() =~= pre);
                assert(b@.subrange(0, i + 1).last() == b@[i as int]);
            }
            hi = hi * 16 + v;
            i += 1;
        }
        let mut lo: u64 = 0;
        while i < 32
            invariant
                16 <= i <= 32 <= n == b@.len(),
                forall|k: int| 0 <= k < i ==> is_hex_byte(#[trigger] b@[k]),
                lo == hex_seq_val(b@.subrange(16, i as int)),
            decreases 32 - i,
        {
            let ghost pre = b@.subrange(16, i as int);
            let d = b[i];
            let v: u64 = if 48 <= d && d <= 57 {
                (d - 48) as u64
            } else if 97 <= d && d <= 102 {
                (d - 87) as u64
            } else if 65 <= d && d <= 70 {
                (d - 55) as u64
            } else {
                return None;
            };
            proof {
                lemma_hex_seq_val_range(pre);
                lemma_pow16_monotone(pre.len() as nat, 15);
                assert(pow16(15) == 0x1000_0000_0000_0000) by {
                    reveal_with_fuel(pow16, 16);
                }
                assert(b@.subrange(16, i + 1).drop_last() =~= pre);
                assert(b@.subrange(16, i + 1).last() == b@[i as int]);
            }
            lo = lo * 16 + v;
            i += 1;
        }
        let mut appendix: u32 = 0;
        while i < n
            invariant
                32 <= i <= n == b@.len() <= 40,
                forall|k: int| 0 <= k < i ==> is_hex_byte(#[trigger] b@[k]),
                appendix == hex_seq_val(b@.subrange(32, i as int)),
            decreases n - i,
        {
            let ghost pre = b@.subrange(32, i as int);
            let d = b[i];
            let v: u32 = if 48 <= d && d <= 57 {
                (d - 48) as u32
            } else if 97 <= d && d <= 102 {
                (d - 87) as u32
            } else if 65 <= d && d <= 70 {
                (d - 55) as u32
            } else {
                return None;
            };
            proof {
                lemma_hex_seq_val_range(pre);
                lemma_pow16_monotone(pre.len() as nat, 7);
                assert(pow16(7) == 0x1000_0000) by {
                    reveal_with_fuel(pow16, 8);
                }
                assert(b@.subrange(32, i + 1).drop_last() =~= pre);
                assert(b@.subrange(32, i + 1).last() == b@[i as int]);
            }
            appendix = appendix * 16 + v;
            i += 1;
        }
        Some(DebugId { uuid_hi: hi, uuid_lo: lo, appendix })
    }

    /// Parses a breakpad id given as a string of ASCII hex digits.
    pub fn from_breakpad(s: &str) -> (r: Option<DebugId>)
        ensures
            match r {
                Some(id) => valid_breakpad_bytes(s.spec_bytes()) && id == debug_id_of_bytes(
                    s.spec_bytes(),
                ),
                None => !valid_breakpad_bytes(s.spec_bytes()),
            },
    {
        Self::from_breakpad_bytes(s.as_bytes())
    }
}

/// `16^n`.
pub open spec fn pow16(n: nat) -> int
    decreases n,
{
    if n == 0 {
        1
    } else {
        16 * pow16((n - 1) as nat)
    }
}

/// A string of hex digits reads as a value below `16` to the power of its
/// length.
pub proof fn lemma_hex_seq_val_range(s: Seq<u8>)
    requires
        forall|i: int| 0 <= i < s.len() ==> is_hex_byte(#[trigger] s[i]),
    ensures
        0 <= hex_seq_val(s) < pow16(s.len() as nat),
    decreases s.len(),
{
    lemma_pow16_pos(s.len() as nat);
    if s.len() > 0 {
        lemma_hex_seq_val_range(s.drop_last());
        assert(0 <= hex_nibble(s.last()) < 16);
        assert(pow16(s.len() as nat) == 16 * pow16((s.len() - 1) as nat));
    }
}

pub proof fn lemma_pow16_pos(n: nat)
    ensures
        pow16(n) >= 1,
    decreases n,
{
    if n > 0 {
        lemma_pow16_pos((n - 1) as nat);
    }
}

pub proof fn lemma_pow16_monotone(a: nat, b: nat)
    requires
        a <= b,
    ensures
        pow16(a) <= pow16(b),
    decreases b,
{
    if a < b {
        lemma_pow16_monotone(a, (b - 1) as nat);
        lemma_pow16_pos((b - 1) as nat);
    }
}

} // verus!
