//! Colours written as text, such as `#1B9AAA`, in style edits.
use vstd::prelude::*;

use crate::text::chars_of;

verus! {

/// `s` without its leading `#` characters.
pub open spec fn strip_hashes(s: Seq<char>) -> Seq<char>
    decreases s.len(),
{
    if s.len() > 0 && s[0] == '#' {
        strip_hashes(s.drop_first())
    } else {
        s
    }
}

/// The value of a hexadecimal digit (either case), if `c` is one.
pub open spec fn hex_digit(c: char) -> Option<nat> {
    if '0' <= c <= '9' {
        Some((c as int - '0' as int) as nat)
    } else if 'a' <= c <= 'f' {
        Some((c as int - 'a' as int + 10) as nat)
    } else if 'A' <= c <= 'F' {
        Some((c as int - 'A' as int + 10) as nat)
    } else {
        None
    }
}

/// Whether every character of `d` is a hexadecimal digit.
pub open spec fn all_hex(d: Seq<char>) -> bool {
    forall|i: int| 0 <= i < d.len() ==> (#[trigger] hex_digit(d[i])) is Some
}

/// The number that the hexadecimal digits `d` write, most significant first.
pub open spec fn hex_value(d: Seq<char>) -> nat
    decreases d.len(),
{
    if d.len() == 0 {
        0
    } else {
        hex_value(d.drop_last()) * 16 + match hex_digit(d.last()) {
            Some(v) => v,
            None => 0,
        }
    }
}

/// The digits of an unsigned number: a leading `+` is dropped when more follows.
pub open spec fn unsigned_digits(s: Seq<char>) -> Seq<char> {
    if s.len() > 1 && s[0] == '+' {
        s.drop_first()
    } else {
        s
    }
}

/// What `u32::from_str_radix(s.trim_start_matches('#'), 16)` accepts: a
/// non-empty run of hexadecimal digits, after any `#`s and an optional `+`,
/// whose value fits in 32 bits.
pub open spec fn parse_hex_spec(s: Seq<char>) -> Option<u32> {
    let d = unsigned_digits(strip_hashes(s));
    if d.len() > 0 && all_hex(d) && hex_value(d) <= u32::MAX {
        Some(hex_value(d) as u32)
    } else {
        None
    }
}

/// The value of one hexadecimal digit character.
fn hex_digit_value(c: char) -> (r: Option<u32>)
    ensures
        match r {
            Some(v) => hex_digit(c) == Some(v as nat),
            None => hex_digit(c) is None,
        },
{
    if '0' <= c && c <= '9' {
        Some((c as u32) - ('0' as u32))
    } else if 'a' <= c && c <= 'f' {
        Some((c as u32) - ('a' as u32) + 10)
    } else if 'A' <= c && c <= 'F' {
        Some((c as u32) - ('A' as u32) + 10)
    } else {
        None
    }
}

/// Adding digits never lowers the value of a run of hexadecimal digits.
proof fn lemma_hex_value_prefix(d: Seq<char>, k: int)
    requires
        0 <= k <= d.len(),
    ensures
        hex_value(d.take(k)) <= hex_value(d),
    decreases d.len() - k,
{
    if k < d.len() {
        lemma_hex_value_prefix(d, k + 1);
        assert(d.take(k + 1).drop_last() =~= d.take(k));
    } else {
        assert(d.take(k) =~= d);
    }
}

/// Reads a colour such as `#1B9AAA` or `ff00ff`: the leading `#`s are skipped
/// and the rest is read as a hexadecimal `u32`, as `u32::from_str_radix` does.
pub fn parse_hex_color(value: &str) -> (r: Option<u32>)
    ensures
        r == parse_hex_spec(value@),
{
    let s = chars_of(value);
    let n = s.len();
    let mut i: usize = 0;
    proof {
        assert(s@.skip(0) =~= s@);
    }
    while i < n && s[i] == '#'
        invariant
            i <= n,
            n == s@.len(),
            strip_hashes(s@) == strip_hashes(s@.skip(i as int)),
        decreases n - i,
    {
        proof {
            assert(s@.skip(i as int).drop_first() =~= s@.skip(i as int + 1));
        }
        i += 1;
    }
    proof {
        assert(strip_hashes(s@.skip(i as int)) == s@.skip(i as int));
    }
    if n - i > 1 && s[i] == '+' {
        proof {
            assert(s@.skip(i as int).drop_first() =~= s@.skip(i as int + 1));
        }
        i += 1;
    }
    let ghost d = unsigned_digits(strip_hashes(s@));
    proof {
        assert(d =~= s@.skip(i as int));
        assert(s@ == value@);
    }
    if i == n {
        return None;
    }
    let mut acc: u32 = 0;
    let mut j: usize = i;
    while j < n
        invariant
            i <= j <= n,
            n == s@.len(),
            s@ == value@,
            d == unsigned_digits(strip_hashes(value@)),
            d == s@.skip(i as int),
            all_hex(d.take(j - i)),
            acc as nat == hex_value(d.take(j - i)),
        decreases n - j,
    {
        let ghost k = (j - i) as int;
        proof {
            assert(d.take(k + 1).drop_last() =~= d.take(k));
            assert(d[k] == s@[j as int]);
        }
        match hex_digit_value(s[j]) {
            Some(v) => {
                let next = match acc.checked_mul(16) {
                    Some(m) => m.checked_add(v),
                    None => None,
                };
                match next {
                    Some(a) => {
                        acc = a;
                        proof {
                            assert forall|t: int| 0 <= t < k + 1 implies (#[trigger] hex_digit(
                                d.take(k + 1)[t],
                            )) is Some by {
                                if t < k {
                                    assert(d.take(k + 1)[t] == d.take(k)[t]);
                                }
                            }
                        }
                    },
                    None => {
                        proof {
                            if all_hex(d) {
                                assert(hex_digit(d[k]) is Some);
                                lemma_hex_value_prefix(d, k + 1);
                                assert(d.take(k + 1).last() == d[k]);
                                assert(hex_value(d.take(k + 1)) == hex_value(d.take(k)) * 16 + v);
                            }
                        }
                        return None;
                    },
                }
            },
            None => {
                proof {
                    assert(hex_digit(d[k]) is None);
                }
                return None;
            },
        }
        j += 1;
    }
    proof {
        assert(d.take(j - i) =~= d);
    }
    Some(acc)
}

} // verus!
