//! Small text helpers shared by the color formatter and the line scanner,
//! and decimal parsing and formatting.

use vstd::prelude::*;
use vstd::std_specs::iter::IteratorSpec;

use crate::csi::is_dec_digit;
use crate::csi::is_dec_digit_char;

verus! {

/// The digits of a decimal literal, an optional leading sign stripped.
pub open spec fn dec_body(s: Seq<char>) -> Seq<char> {
    if s.len() > 0 && (s[0] == '+' || s[0] == '-') {
        s.skip(1)
    } else {
        s
    }
}

/// The value of a sequence of decimal digits, most significant first.
pub open spec fn dec_val(s: Seq<char>) -> int
    decreases s.len(),
{
    if s.len() == 0 {
        0
    } else {
        dec_val(s.drop_last()) * 10 + (s.last() as int - 48)
    }
}

/// Whether a string reads as a 32-bit signed decimal literal: an optional
/// sign, then at least one digit, with a value in range.
pub open spec fn int_literal_ok(s: Seq<char>) -> bool {
    &&& dec_body(s).len() > 0
    &&& forall|i: int| 0 <= i < dec_body(s).len() ==> is_dec_digit_char(dec_body(s)[i])
    &&& if s.len() > 0 && s[0] == '-' {
        dec_val(dec_body(s)) <= 0x8000_0000
    } else {
        dec_val(dec_body(s)) <= 0x7fff_ffff
    }
}

/// The value a decimal literal denotes.
pub open spec fn int_literal_val(s: Seq<char>) -> int {
    if s.len() > 0 && s[0] == '-' {
        -dec_val(dec_body(s))
    } else {
        dec_val(dec_body(s))
    }
}

/// Parses a decimal integer, falling back to a default: exactly the
/// strings that read as a 32-bit signed decimal literal parse.
pub fn parse_int(s: &str, def: i32) -> (r: i32)
    ensures
        r as int == if int_literal_ok(s@) {
            int_literal_val(s@)
        } else {
            def as int
        },
{
    let ghost sv = s@;
    let cs = str_chars(s);
    let n = cs.len();
    let has_sign = n > 0 && (cs[0] == '+' || cs[0] == '-');
    let neg = n > 0 && cs[0] == '-';
    let start: usize = if has_sign {
        1
    } else {
        0
    };
    proof {
        assert(dec_body(sv) =~= sv.skip(start as int));
    }
    if n == start {
        return def;
    }
    let mut val: u32 = 0;
    let mut over = false;
    let mut i: usize = start;
    while i < n
        invariant
            sv == s@,
            cs@ == sv,
            n == sv.len(),
            start <= i <= n,
            start == 1 || start == 0,
            dec_body(sv) == sv.skip(start as int),
            forall|j: int| start <= j < i ==> is_dec_digit_char(sv[j]),
            !over ==> val == dec_val(sv.subrange(start as int, i as int)) && val <= 0x8000_0000,
            over ==> dec_val(sv.subrange(start as int, i as int)) > 0x8000_0000,
        decreases n - i,
    {
        let c = cs[i];
        if !is_dec_digit(c) {
            proof {
                assert(dec_body(sv).len() == n - start);
                assert(dec_body(sv)[i - start] == sv[i as int]);
                assert(!is_dec_digit_char(dec_body(sv)[i - start]));
                assert(!int_literal_ok(sv));
            }
            return def;
        }
        let d = (c as u32) - 48;
        proof {
            assert(sv.subrange(start as int, i + 1).drop_last() =~= sv.subrange(
                start as int,
                i as int,
            ));
            assert(sv.subrange(start as int, i + 1).last() == sv[i as int]);
        }
        let wide: u64 = (val as u64) * 10 + (d as u64);
        if over || wide > 0x8000_0000 {
            over = true;
        } else {
            val = wide as u32;
        }
        i = i + 1;
    }
    proof {
        assert(sv.subrange(start as int, n as int) =~= dec_body(sv));
    }
    if neg {
        if over {
            def
        } else if val == 0x8000_0000 {
            i32::MIN
        } else {
            -(val as i32)
        }
    } else {
        if over || val > 0x7fff_ffff {
            def
        } else {
            val as i32
        }
    }
}

/// Relies on `String::push`: appends the given character to the end of
/// the string.
#[verifier::external_body]
pub(crate) fn push_char(s: &mut String, c: char)
    ensures
        final(s)@ == old(s)@.push(c),
{
    s.push(c);
}

/// The decimal digits of a number, most significant first.
pub open spec fn dec_str(n: nat) -> Seq<char>
    decreases n,
{
    if n < 10 {
        seq![(48 + n) as char]
    } else {
        dec_str(n / 10).push((48 + n % 10) as char)
    }
}

/// Appends the decimal digits of a number.
pub(crate) fn push_dec(s: &mut String, n: usize)
    ensures
        final(s)@ == old(s)@ + dec_str(n as nat),
    decreases n,
{
    if n < 10 {
        push_char(s, ((n as u8) + 48) as char);
        proof {
            assert(s@ =~= old(s)@ + dec_str(n as nat));
        }
    } else {
        push_dec(s, n / 10);
        push_char(s, (((n % 10) as u8) + 48) as char);
        proof {
            assert(s@ =~= old(s)@ + dec_str(n as nat));
        }
    }
}

/// The characters of a string slice, in order, as a vector.
pub(crate) fn str_chars(s: &str) -> (v: Vec<char>)
    ensures
        v@ == s@,
{
    broadcast use vstd::string::axiom_spec_iter;
    broadcast use vstd::string::next_postcondition;

    let mut it = s.chars();
    let mut v: Vec<char> = Vec::new();
    proof {
        assert(vstd::string::spec_iter(s).remaining() == s@);
    }
    loop
        invariant
            it.obeys_prophetic_iter_laws(),
            it.decrease() is Some,
            v@ + it.remaining() == s@,
        ensures
            v@ == s@,
        decreases it.decrease()->0,
    {
        match it.next() {
            Some(c) => {
                v.push(c);
                proof {
                    assert(v@ + it.remaining() =~= s@);
                }
            },
            None => {
                proof {
                    assert(v@ =~= s@);
                }
                break;
            },
        }
    }
    v
}

} // verus!
