//! The CSI parameter tokenizer: turns the text between `ESC [` and the
//! terminating byte into a list of non-negative integers.

use vstd::prelude::*;

verus! {

/// Whether a character is a decimal digit.
pub open spec fn is_dec_digit_char(c: char) -> bool {
    48 <= c as int && c as int <= 57
}

/// The value of a decimal digit.
pub open spec fn dec_digit_val(c: char) -> int
    recommends
        is_dec_digit_char(c),
{
    c as int - 48
}

/// One step of decimal accumulation. Values beyond the 32-bit range
/// saturate: the accumulator is a deliberate bound, not a wrap.
pub open spec fn push_digit(v: u32, d: int) -> u32 {
    if v * 10 + d > u32::MAX {
        u32::MAX
    } else {
        (v * 10 + d) as u32
    }
}

/// The tokens read from position `i` on, with `val` accumulated so far and
/// `has` recording whether any digit was read since the last separator.
/// A separator pushes the accumulator even when no digit was read; a
/// character that is neither digit nor separator aborts the scan without
/// pushing a trailing partial value; the end of the text pushes a value
/// being accumulated.
pub open spec fn tokens_from(s: Seq<char>, i: int, val: u32, has: bool) -> Seq<u32>
    decreases s.len() - i,
{
    if i < 0 || i >= s.len() {
        if has {
            seq![val]
        } else {
            seq![]
        }
    } else if s[i] == ';' {
        seq![val] + tokens_from(s, i + 1, 0u32, false)
    } else if is_dec_digit_char(s[i]) {
        tokens_from(s, i + 1, push_digit(val, dec_digit_val(s[i])), true)
    } else {
        seq![]
    }
}

/// The parameter list a CSI parameter text denotes. An empty list reads as
/// the single parameter 0: `ESC [ m` means reset.
pub open spec fn csi_params(s: Seq<char>) -> Seq<u32> {
    let t = tokens_from(s, 0, 0u32, false);
    if t.len() == 0 {
        seq![0u32]
    } else {
        t
    }
}

/// Whether a character is a decimal digit.
pub(crate) fn is_dec_digit(c: char) -> (r: bool)
    ensures
        r == is_dec_digit_char(c),
{
    let u = c as u32;
    48 <= u && u <= 57
}

/// Tokenizes a CSI parameter text.
pub fn parse_csi_values(csi: &Vec<char>) -> (vals: Vec<u32>)
    ensures
        vals@ == csi_params(csi@),
{
    let ghost s = csi@;
    let n = csi.len();
    let mut vals: Vec<u32> = Vec::new();
    let mut val: u32 = 0;
    let mut has = false;
    let mut i: usize = 0;
    while i < n
        invariant
            s == csi@,
            n == s.len(),
            i <= n,
            tokens_from(s, 0, 0u32, false) == vals@ + tokens_from(s, i as int, val, has),
        decreases n - i,
    {
        let c = csi[i];
        let ghost tail = tokens_from(s, i as int, val, has);
        if c == ';' {
            proof {
                assert(tail == seq![val] + tokens_from(s, i + 1, 0u32, false));
                assert(vals@ + tail =~= vals@.push(val) + tokens_from(s, i + 1, 0u32, false));
            }
            vals.push(val);
            val = 0;
            has = false;
            i = i + 1;
        } else if is_dec_digit(c) {
            let d = (c as u32) - 48;
            let wide: u64 = (val as u64) * 10 + (d as u64);
            let next: u32 = if wide > 0xffff_ffff {
                0xffff_ffff
            } else {
                wide as u32
            };
            proof {
                assert(next == push_digit(val, dec_digit_val(s[i as int])));
            }
            val = next;
            has = true;
            i = i + 1;
        } else {
            proof {
                assert(tail =~= seq![]);
                assert(tokens_from(s, n as int, 0u32, false) =~= seq![]);
                assert(vals@ + tail =~= vals@ + tokens_from(s, n as int, 0u32, false));
            }
            val = 0;
            has = false;
            i = n;
        }
    }
    if has {
        proof {
            assert(tokens_from(s, i as int, val, has) == seq![val]);
            assert(vals@ + seq![val] =~= vals@.push(val));
        }
        vals.push(val);
    } else {
        proof {
            assert(tokens_from(s, i as int, val, has) =~= seq![]);
            assert(vals@ + tokens_from(s, i as int, val, has) =~= vals@);
        }
    }
    if vals.len() == 0 {
        vals.push(0);
        proof {
            assert(vals@ =~= seq![0u32]);
        }
    }
    vals
}

} // verus!
