use vstd::prelude::*;
use vstd::arithmetic::div_mod::{lemma_div_is_ordered, lemma_fundamental_div_mod_converse};

use crate::hex::{format_color, hex_to_rgb, is_hex_color, parse_color, rgb_to_hex};

verus! {

/// The step count used when fewer than two steps are asked for.
pub const DEFAULT_STEPS: usize = 5;

/// One channel at step `i` of `last`: `start + (end - start) * i / last`,
/// rounded to the nearest integer, halves rounded up.
pub open spec fn interpolate(start: int, end: int, i: int, last: int) -> int {
    (2 * (start * last + (end - start) * i) + last) / (2 * last)
}

/// The color at step `i` of `last` between `a` and `b`, channel by channel.
pub open spec fn gradient_color(a: (u8, u8, u8), b: (u8, u8, u8), i: int, last: int) -> (u8, u8, u8) {
    (
        interpolate(a.0 as int, b.0 as int, i, last) as u8,
        interpolate(a.1 as int, b.1 as int, i, last) as u8,
        interpolate(a.2 as int, b.2 as int, i, last) as u8,
    )
}

/// The number of colors produced for a requested step count.
pub open spec fn effective_steps(steps: usize) -> int {
    if steps < 2 {
        DEFAULT_STEPS as int
    } else {
        steps as int
    }
}

/// `g` holds the `n` colors from `a` to `b`, in order, each with its
/// `#RRGGBB` text.
pub open spec fn is_gradient(g: Seq<(String, (u8, u8, u8))>, a: (u8, u8, u8), b: (u8, u8, u8), n: int) -> bool {
    &&& g.len() == n
    &&& forall|k: int| 0 <= k < n ==> #[trigger] g[k].1 == gradient_color(a, b, k, n - 1)
    &&& forall|k: int| 0 <= k < n ==> #[trigger] g[k].0@ == format_color(g[k].1)
}

proof fn lemma_round_of_multiple(m: int, last: int)
    requires
        0 < last,
    ensures
        (2 * (m * last) + last) / (2 * last) == m,
{
    assert(2 * (m * last) + last == m * (2 * last) + last) by (nonlinear_arith);
    lemma_fundamental_div_mod_converse(2 * (m * last) + last, 2 * last, m, last);
}

/// An interpolated channel lies between its two ends, so within [0, 255]
/// for channels of 8 bits and any step index from 0 to `last`.
pub proof fn lemma_interpolate_in_range(start: int, end: int, i: int, last: int)
    requires
        0 <= start <= 255,
        0 <= end <= 255,
        0 < last,
        0 <= i <= last,
    ensures
        start <= end ==> start <= interpolate(start, end, i, last) <= end,
        end <= start ==> end <= interpolate(start, end, i, last) <= start,
        0 <= interpolate(start, end, i, last) <= 255,
{
    let lo = if start <= end { start } else { end };
    let hi = if start <= end { end } else { start };
    let num = start * last + (end - start) * i;
    assert(lo * last <= num <= hi * last) by (nonlinear_arith)
        requires
            lo == (if start <= end { start } else { end }),
            hi == (if start <= end { end } else { start }),
            num == start * last + (end - start) * i,
            0 <= i <= last,
    ;
    lemma_div_is_ordered(2 * (lo * last) + last, 2 * num + last, 2 * last);
    lemma_div_is_ordered(2 * num + last, 2 * (hi * last) + last, 2 * last);
    lemma_round_of_multiple(lo, last);
    lemma_round_of_multiple(hi, last);
}

proof fn lemma_channel_endpoints(s: int, e: int, last: int)
    requires
        0 < last,
    ensures
        interpolate(s, e, 0, last) == s,
        interpolate(s, e, last, last) == e,
{
    assert(s * last + (e - s) * last == e * last) by (nonlinear_arith);
    assert(s * last + (e - s) * 0 == s * last) by (nonlinear_arith);
    lemma_round_of_multiple(s, last);
    lemma_round_of_multiple(e, last);
}

/// The first step of a gradient is its start color and the last step its
/// end color, exactly.
pub proof fn lemma_gradient_endpoints(a: (u8, u8, u8), b: (u8, u8, u8), last: int)
    requires
        0 < last,
    ensures
        gradient_color(a, b, 0, last) == a,
        gradient_color(a, b, last, last) == b,
{
    lemma_channel_endpoints(a.0 as int, b.0 as int, last);
    lemma_channel_endpoints(a.1 as int, b.1 as int, last);
    lemma_channel_endpoints(a.2 as int, b.2 as int, last);
}

/// One channel at step `i` of `last`, rounded to the nearest integer with
/// halves rounded up.
pub fn interpolate_channel(start: u8, end: u8, i: usize, last: usize) -> (v: u8)
    requires
        0 < last,
        i <= last,
    ensures
        v as int == interpolate(start as int, end as int, i as int, last as int),
{
    let s = start as u128;
    let e = end as u128;
    let k = i as u128;
    let l = last as u128;
    assert(s * l <= 255 * 0x1_0000_0000_0000_0000) by (nonlinear_arith)
        requires s <= 255, l < 0x1_0000_0000_0000_0000;
    let num: u128 = if e >= s {
        assert((e - s) * k <= 255 * 0x1_0000_0000_0000_0000) by (nonlinear_arith)
            requires e - s <= 255, k < 0x1_0000_0000_0000_0000;
        s * l + (e - s) * k
    } else {
        assert((s - e) * k <= s * l) by (nonlinear_arith)
            requires s - e <= s, k <= l, e < s;
        s * l - (s - e) * k
    };
    assert(num as int == start as int * last as int + (end as int - start as int) * i as int)
        by (nonlinear_arith)
        requires
            num as int == (if e >= s { s * l + (e - s) * k } else { s * l - (s - e) * k }),
            s == start as int, e == end as int, k == i as int, l == last as int;
    let v = (2 * num + l) / (2 * l);
    proof {
        lemma_interpolate_in_range(start as int, end as int, i as int, last as int);
    }
    v as u8
}

/// The gradient of `steps` colors from `hex_start` to `hex_end`, both ends
/// included, each as its `#RRGGBB` text and its channels. A step count
/// below two stands for the default of five. `None` when either color is
/// not a valid `#RRGGBB` string.
pub fn color_gradient(hex_start: &str, hex_end: &str, steps: usize) -> (r: Option<Vec<(String, (u8, u8, u8))>>)
    ensures
        r is Some <==> is_hex_color(hex_start@) && is_hex_color(hex_end@),
        r is Some ==> is_gradient(r->0@, parse_color(hex_start@), parse_color(hex_end@), effective_steps(steps)),
        r is Some ==> r->0@.len() == effective_steps(steps),
        r is Some ==> r->0@[0].1 == parse_color(hex_start@),
        r is Some ==> r->0@[effective_steps(steps) - 1].1 == parse_color(hex_end@),
{
    let n: usize = if steps < 2 {
        DEFAULT_STEPS
    } else {
        steps
    };
    let a = match hex_to_rgb(hex_start) {
        Some(c) => c,
        None => {
            return None;
        },
    };
    let b = match hex_to_rgb(hex_end) {
        Some(c) => c,
        None => {
            return None;
        },
    };
    let last = n - 1;
    let mut gradient: Vec<(String, (u8, u8, u8))> = Vec::with_capacity(n);
    let mut i: usize = 0;
    while i < n
        invariant
            n as int == effective_steps(steps),
            n >= 2,
            last == n - 1,
            i <= n,
            gradient@.len() == i,
            forall|k: int| 0 <= k < i ==> #[trigger] gradient@[k].1 == gradient_color(a, b, k, last as int),
            forall|k: int| 0 <= k < i ==> #[trigger] gradient@[k].0@ == format_color(gradient@[k].1),
        decreases n - i,
    {
        let rgb = (
            interpolate_channel(a.0, b.0, i, last),
            interpolate_channel(a.1, b.1, i, last),
            interpolate_channel(a.2, b.2, i, last),
        );
        let text = rgb_to_hex(rgb.0, rgb.1, rgb.2);
        gradient.push((text, rgb));
        i = i + 1;
    }
    proof {
        lemma_gradient_endpoints(a, b, last as int);
    }
    Some(gradient)
}

} // verus!
