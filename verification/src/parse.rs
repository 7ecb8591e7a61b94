//! Decimal parsing of the protocol's status code field: an optional sign and
//! decimal digits, read as the standard library's integer parser reads them,
//! with a code of 0 substituted when the field does not parse as an `i8`.

use vstd::prelude::*;

verus! {

/// A decimal digit.
pub open spec fn is_digit(c: char) -> bool {
    '0' <= c && c <= '9'
}

/// All characters of `s` are decimal digits.
pub open spec fn all_digits(s: Seq<char>) -> bool {
    forall|i: int| 0 <= i < s.len() ==> is_digit(#[trigger] s[i])
}

/// The value of a digit sequence read in base ten.
pub open spec fn digits_val(s: Seq<char>) -> int
    decreases s.len(),
{
    if s.len() == 0 {
        0
    } else {
        digits_val(s.drop_last()) * 10 + (s.last() as u32 - '0' as u32)
    }
}

/// The integer a string denotes: an optional `+` or `-` sign followed by at
/// least one decimal digit and nothing else, as the standard library's
/// integer parsers read it. `None` when the string has any other shape.
pub open spec fn spec_parse_signed(s: Seq<char>) -> Option<int> {
    if s.len() == 0 {
        None
    } else {
        let neg = s[0] == '-';
        let ds = if s[0] == '-' || s[0] == '+' {
            s.drop_first()
        } else {
            s
        };
        if ds.len() > 0 && all_digits(ds) {
            Some(
                if neg {
                    -digits_val(ds)
                } else {
                    digits_val(ds)
                },
            )
        } else {
            None
        }
    }
}

/// The status code a field denotes: its integer value when the field parses
/// as an `i8`, and 0 otherwise.
pub open spec fn spec_status_code(s: Seq<char>) -> int {
    match spec_parse_signed(s) {
        Some(v) => if -128 <= v <= 127 {
            v
        } else {
            0
        },
        None => 0,
    }
}

proof fn lemma_digits_val_snoc(s: Seq<char>, a: int, i: int)
    requires
        0 <= a <= i < s.len(),
    ensures
        digits_val(s.subrange(a, i + 1)) == digits_val(s.subrange(a, i)) * 10 + (s[i] as u32
            - '0' as u32),
{
    assert(s.subrange(a, i + 1).drop_last() =~= s.subrange(a, i));
    assert(s.subrange(a, i + 1).last() == s[i]);
}

/// The status code denoted by `s`, with 0 substituted where `s` does not
/// parse as an `i8`.
pub fn parse_status_code(s: &str) -> (r: i8)
    ensures
        r as int == spec_status_code(s@),
{
    let n = s.unicode_len();
    if n == 0 {
        return 0;
    }
    let c0 = s.get_char(0);
    let neg = c0 == '-';
    let start: usize = if c0 == '-' || c0 == '+' {
        1
    } else {
        0
    };
    let ghost ds = if c0 == '-' || c0 == '+' {
        s@.drop_first()
    } else {
        s@
    };
    proof {
        assert(ds =~= s@.subrange(start as int, n as int));
    }
    if n == start {
        return 0;
    }
    let mut i: usize = start;
    let mut mag: u32 = 0;
    let mut over = false;
    while i < n
        invariant
            start <= i <= n,
            n == s@.len(),
            n > 0,
            c0 == s@[0],
            neg == (c0 == '-'),
            (c0 == '-' || c0 == '+') ==> start == 1,
            !(c0 == '-' || c0 == '+') ==> start == 0,
            ds == (if c0 == '-' || c0 == '+' { s@.drop_first() } else { s@ }),
            ds == s@.subrange(start as int, n as int),
            forall|j: int| start <= j < i ==> is_digit(#[trigger] s@[j]),
            !over ==> mag as int == digits_val(s@.subrange(start as int, i as int)) && mag <= 128,
            over ==> digits_val(s@.subrange(start as int, i as int)) > 128,
        decreases n - i,
    {
        let c = s.get_char(i);
        if !(c >= '0' && c <= '9') {
            proof {
                assert(ds[i - start] == s@[i as int]);
                assert(!is_digit(s@[i as int]));
                assert(!all_digits(ds));
                assert(spec_parse_signed(s@) is None);
            }
            return 0;
        }
        let d: u32 = c as u32 - 48;
        proof {
            assert('0' as u32 == 48);
            lemma_digits_val_snoc(s@, start as int, i as int);
        }
        if over {
            proof {
                let prev = digits_val(s@.subrange(start as int, i as int));
                assert(digits_val(s@.subrange(start as int, i + 1)) == prev * 10 + d);
                assert(prev * 10 + d > 128) by {
                    assert(prev > 128);
                    assert(prev * 10 > 1280);
                }
            }
        } else {
            let t = mag * 10 + d;
            if t > 128 {
                over = true;
            } else {
                mag = t;
            }
        }
        i += 1;
    }
    proof {
        assert(s@.subrange(start as int, n as int) == ds);
        assert(all_digits(ds)) by {
            assert(forall|j: int|
                0 <= j < ds.len() ==> ds[j] == #[trigger] s@[start + j] && is_digit(s@[start + j]));
        }
        assert(ds.len() > 0);
    }
    if over {
        return 0;
    }
    if neg {
        if mag == 128 {
            -128
        } else {
            let r = mag as i8;
            -r
        }
    } else {
        if mag > 127 {
            0
        } else {
            mag as i8
        }
    }
}

} // verus!
