use vstd::prelude::*;

use crate::gradient::DEFAULT_STEPS;

verus! {

/// A decimal digit.
pub open spec fn is_digit(c: char) -> bool {
    '0' <= c && c <= '9'
}

/// A nonempty run of decimal digits.
pub open spec fn is_decimal(s: Seq<char>) -> bool {
    &&& s.len() > 0
    &&& forall|k: int| 0 <= k < s.len() ==> #[trigger] is_digit(s[k])
}

/// The number that a run of decimal digits writes.
pub open spec fn decimal_value(s: Seq<char>) -> int
    decreases s.len(),
{
    if s.len() == 0 {
        0
    } else {
        10 * decimal_value(s.drop_last()) + (s.last() as int - '0' as int)
    }
}

/// The digits of a step argument: the text after an optional leading `+`.
pub open spec fn digits_part(s: Seq<char>) -> Seq<char> {
    if s.len() > 0 && s[0] == '+' {
        s.drop_first()
    } else {
        s
    }
}

/// The step count that an argument asks for: the number it writes in
/// decimal, with an optional leading `+`, where that fits in `usize`;
/// the default of five for any other text.
pub open spec fn step_count_of(s: Seq<char>) -> int {
    let d = digits_part(s);
    if is_decimal(d) && decimal_value(d) <= usize::MAX {
        decimal_value(d)
    } else {
        DEFAULT_STEPS as int
    }
}

proof fn lemma_decimal_prefix_grows(s: Seq<char>, k: int)
    requires
        0 <= k <= s.len(),
        forall|j: int| 0 <= j < s.len() ==> #[trigger] is_digit(s[j]),
    ensures
        0 <= decimal_value(s.subrange(0, k)) <= decimal_value(s),
    decreases s.len() - k,
{
    if k < s.len() {
        lemma_decimal_prefix_grows(s, k + 1);
        let p = s.subrange(0, k + 1);
        assert(p.drop_last() =~= s.subrange(0, k));
        assert(is_digit(p.last()));
    } else {
        assert(s.subrange(0, k) =~= s);
        lemma_decimal_nonnegative(s);
    }
}

proof fn lemma_decimal_nonnegative(s: Seq<char>)
    requires
        forall|j: int| 0 <= j < s.len() ==> #[trigger] is_digit(s[j]),
    ensures
        decimal_value(s) >= 0,
    decreases s.len(),
{
    if s.len() > 0 {
        assert(is_digit(s[s.len() - 1]));
        lemma_decimal_nonnegative(s.drop_last());
    }
}

/// Reads a requested step count: decimal digits after an optional `+`.
/// Any other text, or a number too large for `usize`, gives the default of
/// five.
pub fn steps_from_arg(arg: &str) -> (n: usize)
    ensures
        n as int == step_count_of(arg@),
{
    let len = arg.unicode_len();
    let start: usize = if len > 0 && arg.get_char(0) == '+' {
        1
    } else {
        0
    };
    let ghost d = digits_part(arg@);
    assert(d =~= arg@.subrange(start as int, len as int));
    if start == len {
        return DEFAULT_STEPS;
    }
    let mut value: usize = 0;
    let mut k: usize = start;
    while k < len
        invariant
            len == arg@.len(),
            start <= k <= len,
            start < len,
            d == arg@.subrange(start as int, len as int),
            d == digits_part(arg@),
            forall|j: int| 0 <= j < k - start ==> #[trigger] is_digit(d[j]),
            value as int == decimal_value(d.subrange(0, k - start)),
        decreases len - k,
    {
        let c = arg.get_char(k);
        if !('0' <= c && c <= '9') {
            assert(d[k - start] == c && !is_digit(d[k - start]));
            return DEFAULT_STEPS;
        }
        let digit = (c as u32 - '0' as u32) as usize;
        let ghost p = d.subrange(0, k + 1 - start);
        assert(p.drop_last() =~= d.subrange(0, k - start));
        assert(d[k - start] == c);
        assert(p.last() == c);
        if value > (usize::MAX - digit) / 10 {
            proof {
                let m = usize::MAX - digit;
                assert(10 * value + digit > usize::MAX) by (nonlinear_arith)
                    requires
                        value > m / 10,
                        m == usize::MAX - digit,
                        0 <= digit <= 9,
                ;
                assert(decimal_value(p) == 10 * value + digit);
                assert forall|j: int| 0 <= j < k + 1 - start implies #[trigger] is_digit(p[j]) by {
                    assert(p[j] == d[j]);
                }
                if is_decimal(d) {
                    lemma_decimal_prefix_grows(d, k + 1 - start);
                }
            }
            return DEFAULT_STEPS;
        }
        value = value * 10 + digit;
        k = k + 1;
    }
    assert(d.subrange(0, len - start) =~= d);
    value
}

} // verus!
