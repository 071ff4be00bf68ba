use vstd::prelude::*;

verus! {

/// A hexadecimal digit, either case.
pub open spec fn is_hex_char(c: char) -> bool {
    ('0' <= c && c <= '9') || ('a' <= c && c <= 'f') || ('A' <= c && c <= 'F')
}

/// The value of a hexadecimal digit.
pub open spec fn hex_char_value(c: char) -> int {
    if '0' <= c && c <= '9' {
        c as int - '0' as int
    } else if 'a' <= c && c <= 'f' {
        c as int - 'a' as int + 10
    } else {
        c as int - 'A' as int + 10
    }
}

/// The uppercase hexadecimal digit for a value in [0, 16).
pub open spec fn upper_hex_digit(v: int) -> char {
    if v < 10 {
        ('0' as int + v) as char
    } else {
        ('A' as int + v - 10) as char
    }
}

/// Checks one character and gives its value as a hexadecimal digit.
fn hex_value(c: char) -> (r: Option<u8>)
    ensures
        r is Some <==> is_hex_char(c),
        r is Some ==> r->0 as int == hex_char_value(c),
{
    if '0' <= c && c <= '9' {
        Some((c as u32 - '0' as u32) as u8)
    } else if 'a' <= c && c <= 'f' {
        Some((c as u32 - 'a' as u32 + 10) as u8)
    } else if 'A' <= c && c <= 'F' {
        Some((c as u32 - 'A' as u32 + 10) as u8)
    } else {
        None
    }
}

/// A string of the form `#RRGGBB`: seven characters, a `#` and six
/// hexadecimal digits of either case.
pub open spec fn is_hex_color(s: Seq<char>) -> bool {
    &&& s.len() == 7
    &&& s[0] == '#'
    &&& forall|k: int| 1 <= k < 7 ==> #[trigger] is_hex_char(s[k])
}

/// The value of the two digits of `s` that start at position `k`.
pub open spec fn pair_value(s: Seq<char>, k: int) -> int {
    16 * hex_char_value(s[k]) + hex_char_value(s[k + 1])
}

/// The color that a `#RRGGBB` string denotes.
pub open spec fn parse_color(s: Seq<char>) -> (u8, u8, u8) {
    (pair_value(s, 1) as u8, pair_value(s, 3) as u8, pair_value(s, 5) as u8)
}

/// Two uppercase digits, zero-padded, for one channel.
pub open spec fn channel_hex(v: u8) -> Seq<char> {
    seq![upper_hex_digit(v as int / 16), upper_hex_digit(v as int % 16)]
}

/// The `#RRGGBB` text of a color, with uppercase digits.
pub open spec fn format_color(rgb: (u8, u8, u8)) -> Seq<char> {
    seq!['#'] + channel_hex(rgb.0) + channel_hex(rgb.1) + channel_hex(rgb.2)
}

/// A character with a lowercase hexadecimal letter made uppercase.
pub open spec fn upper_hex_char(c: char) -> char {
    if 'a' <= c && c <= 'f' {
        (c as int - 'a' as int + 'A' as int) as char
    } else {
        c
    }
}

/// A string with its lowercase hexadecimal letters made uppercase.
pub open spec fn upper_hex_text(s: Seq<char>) -> Seq<char> {
    s.map_values(|c: char| upper_hex_char(c))
}

proof fn lemma_digit_round_trip(v: int)
    requires
        0 <= v < 16,
    ensures
        is_hex_char(upper_hex_digit(v)),
        hex_char_value(upper_hex_digit(v)) == v,
{
}

proof fn lemma_char_round_trip(c: char)
    requires
        is_hex_char(c),
    ensures
        0 <= hex_char_value(c) < 16,
        upper_hex_digit(hex_char_value(c)) == upper_hex_char(c),
{
}

proof fn lemma_channel_round_trip(s: Seq<char>, k: int)
    requires
        0 <= k,
        k + 1 < s.len(),
        is_hex_char(s[k]),
        is_hex_char(s[k + 1]),
    ensures
        0 <= pair_value(s, k) < 256,
        channel_hex(pair_value(s, k) as u8) == seq![upper_hex_char(s[k]), upper_hex_char(s[k + 1])],
{
    lemma_char_round_trip(s[k]);
    lemma_char_round_trip(s[k + 1]);
    let hi = hex_char_value(s[k]);
    let lo = hex_char_value(s[k + 1]);
    let v = pair_value(s, k);
    assert(v / 16 == hi && v % 16 == lo) by (nonlinear_arith)
        requires
            v == 16 * hi + lo,
            0 <= hi < 16,
            0 <= lo < 16,
    ;
    assert(channel_hex(v as u8) =~= seq![upper_hex_char(s[k]), upper_hex_char(s[k + 1])]);
}

/// Formatting what a valid `#RRGGBB` string parses to gives that string
/// back, with its hexadecimal letters in uppercase.
pub proof fn lemma_format_of_parse(s: Seq<char>)
    requires
        is_hex_color(s),
    ensures
        format_color(parse_color(s)) == upper_hex_text(s),
{
    assert(is_hex_char(s[1]) && is_hex_char(s[2]) && is_hex_char(s[3]));
    assert(is_hex_char(s[4]) && is_hex_char(s[5]) && is_hex_char(s[6]));
    lemma_channel_round_trip(s, 1);
    lemma_channel_round_trip(s, 3);
    lemma_channel_round_trip(s, 5);
    assert(format_color(parse_color(s)) =~= upper_hex_text(s));
}

/// Every color is formatted to a valid `#RRGGBB` string, which parses back
/// to exactly that color.
pub proof fn lemma_parse_of_format(rgb: (u8, u8, u8))
    ensures
        is_hex_color(format_color(rgb)),
        parse_color(format_color(rgb)) == rgb,
{
    let s = format_color(rgb);
    assert forall|v: u8| #![trigger channel_hex(v)]
        is_hex_char(channel_hex(v)[0]) && is_hex_char(channel_hex(v)[1])
        && 16 * hex_char_value(channel_hex(v)[0]) + hex_char_value(channel_hex(v)[1]) == v as int by {
        lemma_digit_round_trip(v as int / 16);
        lemma_digit_round_trip(v as int % 16);
    }
    assert(s[1] == channel_hex(rgb.0)[0] && s[2] == channel_hex(rgb.0)[1]);
    assert(s[3] == channel_hex(rgb.1)[0] && s[4] == channel_hex(rgb.1)[1]);
    assert(s[5] == channel_hex(rgb.2)[0] && s[6] == channel_hex(rgb.2)[1]);
}

/// Reads a `#RRGGBB` color, digits of either case; `None` for any other text.
pub fn hex_to_rgb(hex: &str) -> (r: Option<(u8, u8, u8)>)
    ensures
        r is Some <==> is_hex_color(hex@),
        r is Some ==> r->0 == parse_color(hex@),
{
    if hex.unicode_len() != 7 || hex.get_char(0) != '#' {
        return None;
    }
    let mut vals: [u8; 6] = [0; 6];
    let mut k: usize = 0;
    while k < 6
        invariant
            hex@.len() == 7,
            0 <= k <= 6,
            forall|j: int| 1 <= j <= k ==> #[trigger] is_hex_char(hex@[j]),
            forall|j: int| 0 <= j < k ==> vals@[j] as int == hex_char_value(hex@[j + 1]),
        decreases 6 - k,
    {
        match hex_value(hex.get_char(k + 1)) {
            Some(v) => {
                vals[k] = v;
            },
            None => {
                return None;
            },
        }
        k = k + 1;
    }
    let r = 16 * vals[0] as u32 + vals[1] as u32;
    let g = 16 * vals[2] as u32 + vals[3] as u32;
    let b = 16 * vals[4] as u32 + vals[5] as u32;
    Some((r as u8, g as u8, b as u8))
}

/// Appends the two uppercase digits of one channel.
fn push_channel(text: &mut String, v: u8)
    ensures
        final(text)@ == old(text)@ + channel_hex(v),
{
    let digits = "0123456789ABCDEF";
    proof {
        reveal_strlit("0123456789ABCDEF");
        assert(digits@ =~= Seq::new(16, |j: int| upper_hex_digit(j)));
    }
    let hi: usize = (v / 16) as usize;
    let lo: usize = (v % 16) as usize;
    text.append(digits.substring_ascii(hi, hi + 1));
    text.append(digits.substring_ascii(lo, lo + 1));
    assert(final(text)@ =~= old(text)@ + channel_hex(v));
}

/// Writes a color as `#RRGGBB`, two uppercase zero-padded digits per channel.
pub fn rgb_to_hex(r: u8, g: u8, b: u8) -> (s: String)
    ensures
        s@ == format_color((r, g, b)),
{
    let mut text = String::from_str("#");
    proof {
        reveal_strlit("#");
    }
    push_channel(&mut text, r);
    push_channel(&mut text, g);
    push_channel(&mut text, b);
    assert(text@ =~= format_color((r, g, b)));
    text
}

} // verus!
