//! Small verified text utilities: string equality, prefix tests, and
//! parsing of unsigned decimal numbers, stated over character sequences.

use vstd::prelude::*;
use vstd::string::StrSliceExecFns;

verus! {

/// String equality by view.
pub fn str_eq(a: &str, b: &str) -> (r: bool)
    ensures
        r == (a@ == b@),
{
    let sa: String = a.to_owned();
    let sb: String = b.to_owned();
    sa == sb
}

/// `p` is a prefix of `s`.
pub open spec fn has_prefix(s: Seq<char>, p: Seq<char>) -> bool {
    p.len() <= s.len() && s.subrange(0, p.len() as int) == p
}

/// Prefix test on strings, by characters.
pub fn starts_with_str(s: &str, p: &str) -> (r: bool)
    ensures
        r == has_prefix(s@, p@),
{
    let sl = s.unicode_len();
    let pl = p.unicode_len();
    if pl > sl {
        assert(!has_prefix(s@, p@));
        return false;
    }
    let mut i: usize = 0;
    while i < pl
        invariant
            i <= pl,
            pl <= sl,
            pl == p@.len(),
            sl == s@.len(),
            forall|j: int| 0 <= j < i ==> s@[j] == p@[j],
        decreases pl - i,
    {
        if s.get_char(i) != p.get_char(i) {
            assert(!has_prefix(s@, p@)) by {
                if s@.subrange(0, p@.len() as int) == p@ {
                    assert(s@.subrange(0, p@.len() as int)[i as int] == s@[i as int]);
                }
            }
            return false;
        }
        i += 1;
    }
    assert(s@.subrange(0, p@.len() as int) =~= p@);
    true
}

/// `c` is an ASCII decimal digit.
pub open spec fn is_digit(c: char) -> bool {
    48 <= c as u32 <= 57
}

/// Numeric value of a digit character.
pub open spec fn digit_val(c: char) -> int {
    c as u32 - 48
}

/// Every character of `s` is a decimal digit.
pub open spec fn all_digits(s: Seq<char>) -> bool {
    forall|i: int| 0 <= i < s.len() ==> is_digit(#[trigger] s[i])
}

/// The value of a digit string read most-significant first; 0 when empty.
pub open spec fn digits_val(s: Seq<char>) -> int
    decreases s.len(),
{
    if s.len() == 0 {
        0
    } else {
        digits_val(s.drop_last()) * 10 + digit_val(s.last())
    }
}

/// A digit string has a non-negative value.
pub proof fn lemma_digits_val_nonneg(s: Seq<char>)
    requires
        all_digits(s),
    ensures
        digits_val(s) >= 0,
    decreases s.len(),
{
    if s.len() > 0 {
        assert(all_digits(s.drop_last()));
        lemma_digits_val_nonneg(s.drop_last());
        assert(is_digit(s.last()));
    }
}

/// Extending a digit string by one digit multiplies its value by ten and
/// adds the new digit.
pub proof fn lemma_digits_val_step(s: Seq<char>, j: int)
    requires
        0 <= j < s.len(),
    ensures
        digits_val(s.subrange(0, j + 1)) == digits_val(s.subrange(0, j)) * 10 + digit_val(s[j]),
{
    let t = s.subrange(0, j + 1);
    assert(t.drop_last() =~= s.subrange(0, j));
    assert(t.last() == s[j]);
}

/// The value of a digit string is at least the value of any of its
/// prefixes.
pub proof fn lemma_digits_val_prefix_le(s: Seq<char>, j: int)
    requires
        all_digits(s),
        0 <= j <= s.len(),
    ensures
        digits_val(s.subrange(0, j)) <= digits_val(s),
    decreases s.len() - j,
{
    if j == s.len() {
        assert(s.subrange(0, j) =~= s);
    } else {
        lemma_digits_val_step(s, j);
        assert(all_digits(s.subrange(0, j)));
        lemma_digits_val_nonneg(s.subrange(0, j));
        lemma_digits_val_prefix_le(s, j + 1);
    }
}

/// Parses `s[from..to]` as an unsigned decimal number that fits in `u32`.
/// Succeeds exactly when the range is non-empty, all digits, and the value
/// is at most `u32::MAX`.
pub fn parse_decimal_range(s: &str, from: usize, to: usize) -> (r: Option<u32>)
    requires
        from <= to <= s@.len(),
    ensures
        match r {
            Some(v) => from < to && all_digits(s@.subrange(from as int, to as int))
                && v == digits_val(s@.subrange(from as int, to as int))
                && digits_val(s@.subrange(from as int, to as int)) <= u32::MAX,
            None => from == to || !all_digits(s@.subrange(from as int, to as int))
                || digits_val(s@.subrange(from as int, to as int)) > u32::MAX,
        },
{
    if from == to {
        return None;
    }
    let ghost part = s@.subrange(from as int, to as int);
    let mut i: usize = from;
    let mut val: u64 = 0;
    while i < to
        invariant
            from <= i <= to <= s@.len(),
            from < to,
            part == s@.subrange(from as int, to as int),
            all_digits(part.subrange(0, i - from)),
            val == digits_val(part.subrange(0, i - from)),
            val <= u32::MAX,
        decreases to - i,
    {
        let c = s.get_char(i);
        assert(c == part[i - from]);
        let cv = c as u32;
        if cv < 48 || cv > 57 {
            assert(!all_digits(part)) by {
                assert(part[i - from] == c && !is_digit(c));
            }
            return None;
        }
        let d: u64 = (cv - 48) as u64;
        let nv: u64 = val * 10 + d;
        proof {
            lemma_digits_val_step(part, i - from);
            assert(part.subrange(0, i - from + 1).drop_last() =~= part.subrange(0, i - from));
        }
        if nv > u32::MAX as u64 {
            // Every longer prefix is at least as large, so the whole range
            // overflows as well.
            proof {
                if all_digits(part) {
                    lemma_digits_val_prefix_le(part, i - from + 1);
                }
            }
            return None;
        }
        val = nv;
        i += 1;
    }
    assert(part.subrange(0, to - from) =~= part);
    Some(val as u32)
}

} // verus!
