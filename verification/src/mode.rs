use vstd::prelude::*;
use crate::errors::FsError;

verus! {

/// Whether `c` is one of the digits '0' through '7'.
pub open spec fn is_octal_digit(c: char) -> bool {
    48 <= c as u32 <= 55
}

/// The numeric value of an octal digit.
pub open spec fn octal_digit(c: char) -> nat {
    (c as u32 - 48) as nat
}

/// The numeric value of an octal digit string, most significant digit first.
pub open spec fn octal_value(s: Seq<char>) -> nat
    decreases s.len(),
{
    if s.len() == 0 {
        0
    } else {
        octal_value(s.drop_last()) * 8 + octal_digit(s.last())
    }
}

/// A valid octal mode string: nonempty, all octal digits, and a value that
/// fits the machine's permission word.
pub open spec fn valid_octal(s: Seq<char>) -> bool {
    &&& s.len() > 0
    &&& forall|i: int| 0 <= i < s.len() ==> is_octal_digit(#[trigger] s[i])
    &&& octal_value(s) <= u32::MAX
}

/// The value of an octal string never falls below the value of any of
/// its prefixes.
proof fn lemma_octal_prefix(s: Seq<char>, i: int)
    requires
        0 <= i <= s.len(),
    ensures
        octal_value(s.subrange(0, i)) <= octal_value(s),
    decreases s.len() - i,
{
    if i == s.len() {
        assert(s.subrange(0, i) =~= s);
    } else {
        lemma_octal_prefix(s, i + 1);
        assert(s.subrange(0, i + 1).drop_last() =~= s.subrange(0, i));
        assert(octal_value(s.subrange(0, i + 1)) == octal_value(s.subrange(0, i)) * 8
            + octal_digit(s[i]));
    }
}

/// Parses a permission mode given as an octal numeral, as the `chmod`
/// command expects it. Returns the parsed bits, or `InvalidInput` when the
/// string is empty, holds a character other than '0' through '7', or names
/// a value too large for the permission word.
pub fn parse_mode(mode: &str) -> (r: Result<u32, FsError>)
    ensures
        valid_octal(mode@) ==> r == Ok::<u32, FsError>(octal_value(mode@) as u32),
        !valid_octal(mode@) ==> r == Err::<u32, FsError>(FsError::InvalidInput),
{
    let n = mode.unicode_len();
    if n == 0 {
        return Err(FsError::InvalidInput);
    }
    let mut value: u32 = 0;
    let mut i: usize = 0;
    while i < n
        invariant
            n == mode@.len(),
            i <= n,
            forall|k: int| 0 <= k < i ==> is_octal_digit(#[trigger] mode@[k]),
            value == octal_value(mode@.subrange(0, i as int)),
        decreases n - i,
    {
        let c = mode.get_char(i);
        let cv = c as u32;
        if cv < 48 || cv > 55 {
            return Err(FsError::InvalidInput);
        }
        let d = cv - 48;
        proof {
            assert(mode@.subrange(0, i + 1).drop_last() =~= mode@.subrange(0, i as int));
            assert(octal_value(mode@.subrange(0, i + 1)) == value * 8 + d);
        }
        if value > (u32::MAX - d) / 8 {
            proof {
                assert(value * 8 + d > u32::MAX) by (nonlinear_arith)
                    requires
                        value > (u32::MAX - d) / 8,
                        d <= 7,
                ;
                lemma_octal_prefix(mode@, i + 1);
            }
            return Err(FsError::InvalidInput);
        }
        proof {
            assert(value * 8 + d <= u32::MAX) by (nonlinear_arith)
                requires
                    value <= (u32::MAX - d) / 8,
                    d <= 7,
            ;
        }
        value = value * 8 + d;
        i = i + 1;
    }
    proof {
        assert(mode@.subrange(0, n as int) =~= mode@);
    }
    Ok(value)
}

} // verus!
