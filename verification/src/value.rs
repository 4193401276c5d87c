//! The value of a numeric literal.
use crate::text::{byte_len, byte_length, match_prefix, offset_of, suffix};
use vstd::prelude::*;
use vstd::std_specs::iter::IteratorSpec;
use vstd::string::*;

verus! {

/// The value of a digit in the bases up to sixteen; sixteen for a character
/// that is no digit.
pub open spec fn digit_value(c: char) -> nat {
    if '0' <= c <= '9' {
        (c as u32 - '0' as u32) as nat
    } else if 'a' <= c <= 'f' {
        (c as u32 - 'a' as u32 + 10) as nat
    } else if 'A' <= c <= 'F' {
        (c as u32 - 'A' as u32 + 10) as nat
    } else {
        16
    }
}

/// Whether every character is a digit of the base.
pub open spec fn all_digits(s: Seq<char>, radix: nat) -> bool {
    forall|i: int| 0 <= i < s.len() ==> digit_value(#[trigger] s[i]) < radix
}

/// The number that a sequence of digits writes in the base.
pub open spec fn digits_value(s: Seq<char>, radix: nat) -> nat
    decreases s.len(),
{
    if s.len() == 0 {
        0
    } else {
        digits_value(s.drop_last(), radix) * radix + digit_value(s.last())
    }
}

/// The base that a literal's marker names: sixteen for `0x`, two for `0b`.
pub open spec fn marked_radix(s: Seq<char>) -> Option<nat> {
    if s.len() >= 2 && s[0] == '0' && s[1] == 'x' {
        Some(16)
    } else if s.len() >= 2 && s[0] == '0' && s[1] == 'b' {
        Some(2)
    } else {
        None
    }
}

/// The number that a literal writes: digits of the marked base after a
/// marker, decimal digits without one; at least one digit either way.
pub open spec fn literal_value(s: Seq<char>) -> Option<nat> {
    match marked_radix(s) {
        Some(radix) => if s.len() > 2 && all_digits(s.skip(2), radix) {
            Some(digits_value(s.skip(2), radix))
        } else {
            None
        },
        None => if s.len() > 0 && all_digits(s, 10) {
            Some(digits_value(s, 10))
        } else {
            None
        },
    }
}

/// One more digit multiplies by the base and adds the digit.
pub proof fn lemma_value_step(s: Seq<char>, radix: nat, k: int)
    requires
        0 <= k < s.len(),
    ensures
        digits_value(s.take(k + 1), radix) == digits_value(s.take(k), radix) * radix + digit_value(
            s[k],
        ),
{
    assert(s.take(k + 1).drop_last() =~= s.take(k));
}

/// A number is no smaller than what its leading digits write.
pub proof fn lemma_value_prefix(s: Seq<char>, radix: nat, k: int)
    requires
        0 <= k <= s.len(),
        radix >= 1,
    ensures
        digits_value(s.take(k), radix) <= digits_value(s, radix),
    decreases s.len() - k,
{
    if k == s.len() {
        assert(s.take(k) =~= s);
    } else {
        lemma_value_prefix(s, radix, k + 1);
        lemma_value_step(s, radix, k);
        let x = digits_value(s.take(k), radix);
        assert(x * radix >= x) by (nonlinear_arith)
            requires
                radix >= 1,
                x >= 0,
        ;
    }
}

/// The value of one digit.
pub fn digit_of(c: char) -> (d: u64)
    ensures
        d == digit_value(c),
{
    if '0' <= c && c <= '9' {
        (c as u32 - '0' as u32) as u64
    } else if 'a' <= c && c <= 'f' {
        (c as u32 - 'a' as u32 + 10) as u64
    } else if 'A' <= c && c <= 'F' {
        (c as u32 - 'A' as u32 + 10) as u64
    } else {
        16
    }
}

/// The number that the text writes in the base, if it is made of digits of
/// the base, at least one, and the number fits.
pub fn parse_digits(s: &str, radix: u64) -> (r: Option<u64>)
    requires
        2 <= radix <= 16,
    ensures
        r == if s@.len() > 0 && all_digits(s@, radix as nat) && digits_value(s@, radix as nat)
            <= u64::MAX {
            Some(digits_value(s@, radix as nat) as u64)
        } else {
            None
        },
{
    broadcast use group_string_axioms;

    let mut it = s.chars();
    let mut acc: u64 = 0;
    let mut any = false;
    let ghost mut k: int = 0;
    proof {
        assert(s@.skip(0) =~= s@);
        assert(s@.take(0) =~= Seq::<char>::empty());
    }
    loop
        invariant
            0 <= k <= s@.len(),
            2 <= radix <= 16,
            any == (k > 0),
            it.remaining() == s@.skip(k),
            acc == digits_value(s@.take(k), radix as nat),
            forall|i: int| 0 <= i < k ==> digit_value(#[trigger] s@[i]) < radix,
        decreases s@.len() - k,
    {
        match it.next() {
            None => {
                proof {
                    assert(s@.take(k) =~= s@);
                }
                return if any {
                    Some(acc)
                } else {
                    None
                };
            },
            Some(c) => {
                assert(c == s@[k]);
                let d = digit_of(c);
                if d >= radix {
                    return None;
                }
                proof {
                    lemma_value_step(s@, radix as nat, k);
                    lemma_value_prefix(s@, radix as nat, k + 1);
                    assert(s@.skip(k).drop_first() =~= s@.skip(k + 1));
                }
                match acc.checked_mul(radix) {
                    None => {
                        return None;
                    },
                    Some(shifted) => match shifted.checked_add(d) {
                        None => {
                            return None;
                        },
                        Some(next) => {
                            acc = next;
                            any = true;
                            proof {
                                k = k + 1;
                            }
                        },
                    },
                }
            },
        }
    }
}

/// The marker at the front of a literal: the base that it names, and its
/// length in bytes.
pub fn marker(s: &str) -> (r: Option<(u64, usize)>)
    ensures
        r == match marked_radix(s@) {
            Some(radix) => Some((radix as u64, offset_of(s@, 2) as usize)),
            None => None,
        },
        marked_radix(s@) is Some ==> offset_of(s@, 2) <= byte_len(s@) <= usize::MAX,
{
    let _total = byte_length(s);
    proof {
        reveal_strlit("0x");
        reveal_strlit("0b");
        if s@.len() >= 2 {
            assert(s@.subrange(0, 2)[0] == s@[0]);
            assert(s@.subrange(0, 2)[1] == s@[1]);
            if s@[0] == '0' && s@[1] == 'x' {
                assert("0x"@ =~= s@.subrange(0, 2));
            }
            if s@[0] == '0' && s@[1] == 'b' {
                assert("0b"@ =~= s@.subrange(0, 2));
            }
        }
    }
    if let Some(skip) = match_prefix(s, "0x") {
        return Some((16, skip));
    }
    if let Some(skip) = match_prefix(s, "0b") {
        return Some((2, skip));
    }
    None
}

/// The number that a literal writes, if it is well formed and fits.
pub fn literal(s: &str) -> (r: Option<u64>)
    ensures
        r == match literal_value(s@) {
            Some(v) => if v <= u64::MAX {
                Some(v as u64)
            } else {
                None
            },
            None => None,
        },
{
    match marker(s) {
        Some((radix, skip)) => {
            let rest = suffix(s, skip, Ghost(2));
            parse_digits(rest, radix)
        },
        None => parse_digits(s, 10),
    }
}

} // verus!
