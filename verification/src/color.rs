//! Colour codes: the `#rrggbb` form that SVG output uses, and the parsing of
//! CSS hex colour strings.
//!
//! The channels are bytes here. Scaling them to and from the unit interval is
//! floating-point work that the code around this module does.

use vstd::prelude::*;
use vstd::string::StringSliceAdditionalSpecFns;

verus! {

/// The lowercase hexadecimal digit for `d` (`0 <= d < 16`).
pub open spec fn hex_digit_char(d: int) -> char
    recommends
        0 <= d < 16,
{
    if d < 10 {
        (('0' as int) + d) as char
    } else {
        (('a' as int) + d - 10) as char
    }
}

/// The two lowercase hexadecimal digits of a byte, most significant first.
pub open spec fn hex_byte_chars(b: u8) -> Seq<char> {
    seq![hex_digit_char(b as int / 16), hex_digit_char(b as int % 16)]
}

/// `#rrggbb` with lowercase digits.
pub open spec fn hex_color_chars(r: u8, g: u8, b: u8) -> Seq<char> {
    seq!['#'] + hex_byte_chars(r) + hex_byte_chars(g) + hex_byte_chars(b)
}

/// The SVG colour string: `none` for a fully transparent colour, else
/// `#rrggbb`.
pub open spec fn svg_color_chars(transparent: bool, r: u8, g: u8, b: u8) -> Seq<char> {
    if transparent {
        seq!['n', 'o', 'n', 'e']
    } else {
        hex_color_chars(r, g, b)
    }
}

/// Appends `c` to `s` (std's `String::push`).
#[verifier::external_body]
fn push_char(s: &mut String, c: char)
    ensures
        final(s)@ == old(s)@.push(c),
{
    s.push(c);
}

fn hex_digit(d: u8) -> (c: char)
    requires
        d < 16,
    ensures
        c == hex_digit_char(d as int),
{
    if d < 10 {
        ((48u8 + d) as char)
    } else {
        ((87u8 + d) as char)
    }
}

fn push_hex_byte(s: &mut String, b: u8)
    ensures
        final(s)@ == old(s)@ + hex_byte_chars(b),
{
    push_char(s, hex_digit(b / 16));
    push_char(s, hex_digit(b % 16));
    assert(final(s)@ =~= old(s)@ + hex_byte_chars(b));
}

/// `#rrggbb`: `#` followed by the two lowercase hexadecimal digits of each
/// channel.
pub fn hex_color_string(r: u8, g: u8, b: u8) -> (s: String)
    ensures
        s@ == hex_color_chars(r, g, b),
{
    let mut s = String::new();
    push_char(&mut s, '#');
    push_hex_byte(&mut s, r);
    push_hex_byte(&mut s, g);
    push_hex_byte(&mut s, b);
    assert(s@ =~= hex_color_chars(r, g, b));
    s
}

/// The SVG colour string of a colour whose channels, scaled to bytes, are `r`,
/// `g` and `b`: `none` when the colour is fully transparent, else `#rrggbb`.
pub fn svg_color_string(transparent: bool, r: u8, g: u8, b: u8) -> (s: String)
    ensures
        s@ == svg_color_chars(transparent, r, g, b),
{
    if transparent {
        let mut s = String::new();
        push_char(&mut s, 'n');
        push_char(&mut s, 'o');
        push_char(&mut s, 'n');
        push_char(&mut s, 'e');
        assert(s@ =~= seq!['n', 'o', 'n', 'e']);
        s
    } else {
        hex_color_string(r, g, b)
    }
}

// ── Parsing ──────────────────────────────────────────────────────────────────

/// Whether `c` is an ASCII hexadecimal digit (either case).
pub open spec fn is_hex_byte(c: u8) -> bool {
    (48 <= c <= 57) || (65 <= c <= 70) || (97 <= c <= 102)
}

/// The value of an ASCII hexadecimal digit.
pub open spec fn hex_byte_value(c: u8) -> int {
    if 48 <= c <= 57 {
        c - 48
    } else if 65 <= c <= 70 {
        c - 55
    } else {
        c - 87
    }
}

/// What `u8::from_str_radix(s, 16).unwrap_or(0)` gives for the two bytes
/// `a`, `b`: a leading `+` is allowed before a single digit; anything that is
/// not a base-16 numeral gives 0.
pub open spec fn radix16_pair_or_zero(a: u8, b: u8) -> u8 {
    if a == 43 && is_hex_byte(b) {
        hex_byte_value(b) as u8
    } else if is_hex_byte(a) && is_hex_byte(b) {
        (16 * hex_byte_value(a) + hex_byte_value(b)) as u8
    } else {
        0
    }
}

/// The number of `#` bytes at the start of `bytes`.
pub open spec fn leading_hashes(bytes: Seq<u8>) -> nat
    decreases bytes.len(),
{
    if bytes.len() > 0 && bytes[0] == 35 {
        1 + leading_hashes(bytes.drop_first())
    } else {
        0
    }
}

/// Whether byte offset `i` starts a character (or is the end) of the UTF-8
/// text `bytes`: the byte there is not a continuation byte.
pub open spec fn starts_char(bytes: Seq<u8>, i: int) -> bool {
    i == bytes.len() || !(128 <= bytes[i] < 192)
}

/// Whether, after the leading `#`s, the text has three two-byte fields that
/// start and end on character boundaries (else slicing them panics).
pub open spec fn hex_fields_sliceable(bytes: Seq<u8>) -> bool {
    let k = leading_hashes(bytes) as int;
    &&& k + 6 <= bytes.len()
    &&& starts_char(bytes, k)
    &&& starts_char(bytes, k + 2)
    &&& starts_char(bytes, k + 4)
    &&& starts_char(bytes, k + 6)
}

/// The red, green and blue bytes parsed from the text: each of the three
/// two-byte fields after the leading `#`s is read as a base-16 number, and 0
/// stands for a field that is not one.
pub open spec fn parsed_rgb(bytes: Seq<u8>) -> (u8, u8, u8) {
    let k = leading_hashes(bytes) as int;
    (
        radix16_pair_or_zero(bytes[k], bytes[k + 1]),
        radix16_pair_or_zero(bytes[k + 2], bytes[k + 3]),
        radix16_pair_or_zero(bytes[k + 4], bytes[k + 5]),
    )
}

proof fn lemma_leading_hashes_bound(bytes: Seq<u8>)
    ensures
        leading_hashes(bytes) <= bytes.len(),
        forall|i: int| 0 <= i < leading_hashes(bytes) ==> bytes[i] == 35,
        leading_hashes(bytes) < bytes.len() ==> bytes[leading_hashes(bytes) as int] != 35,
    decreases bytes.len(),
{
    if bytes.len() > 0 && bytes[0] == 35 {
        lemma_leading_hashes_bound(bytes.drop_first());
        assert forall|i: int| 0 <= i < leading_hashes(bytes) implies bytes[i] == 35 by {
            if i > 0 {
                assert(bytes[i] == bytes.drop_first()[i - 1]);
            }
        }
    }
}

fn count_leading_hashes(bytes: &[u8]) -> (k: usize)
    ensures
        k == leading_hashes(bytes@),
{
    let n = bytes.len();
    let mut k: usize = 0;
    proof {
        lemma_leading_hashes_bound(bytes@);
    }
    while k < n && bytes[k] == 35
        invariant
            n == bytes@.len(),
            k <= leading_hashes(bytes@),
            leading_hashes(bytes@) <= n,
            forall|i: int| 0 <= i < leading_hashes(bytes@) ==> bytes@[i] == 35,
            leading_hashes(bytes@) < n ==> bytes@[leading_hashes(bytes@) as int] != 35,
        decreases n - k,
    {
        k = k + 1;
    }
    k
}

fn hex_value(c: u8) -> (v: u8)
    requires
        is_hex_byte(c),
    ensures
        v == hex_byte_value(c),
        v < 16,
{
    if c <= 57 {
        c - 48
    } else if c <= 70 {
        c - 55
    } else {
        c - 87
    }
}

fn is_hex(c: u8) -> (b: bool)
    ensures
        b == is_hex_byte(c),
{
    (48 <= c && c <= 57) || (65 <= c && c <= 70) || (97 <= c && c <= 102)
}

/// `u8::from_str_radix` in base 16 on the two bytes `a` `b`, with 0 for a
/// field that is not a base-16 numeral.
fn parse_pair(a: u8, b: u8) -> (v: u8)
    ensures
        v == radix16_pair_or_zero(a, b),
{
    if a == 43 && is_hex(b) {
        hex_value(b)
    } else if is_hex(a) && is_hex(b) {
        16 * hex_value(a) + hex_value(b)
    } else {
        0
    }
}

/// Parses the red, green and blue bytes of a CSS hex colour string such as
/// `"#5E0042"` or `"5E0042"`. Leading `#`s are skipped; each of the next three
/// two-byte fields is read as a base-16 number (either case, an optional `+`
/// before a single digit), and a field that is not one gives 0. Text after the
/// sixth byte is ignored.
pub fn hex_rgb_bytes(hex: &str) -> (rgb: (u8, u8, u8))
    requires
        hex_fields_sliceable(hex.spec_bytes()),
    ensures
        rgb == parsed_rgb(hex.spec_bytes()),
{
    let bytes = hex.as_bytes();
    let k = count_leading_hashes(bytes);
    let r = parse_pair(bytes[k], bytes[k + 1]);
    let g = parse_pair(bytes[k + 2], bytes[k + 3]);
    let b = parse_pair(bytes[k + 4], bytes[k + 5]);
    (r, g, b)
}

proof fn lemma_hex_digit_char(d: int)
    requires
        0 <= d < 16,
    ensures
        is_hex_byte(hex_digit_char(d) as u8),
        hex_byte_value(hex_digit_char(d) as u8) == d,
        hex_digit_char(d) as u8 != 35,
        hex_digit_char(d) as u8 != 43,
        '\0' <= hex_digit_char(d) <= '\u{7f}',
{
}

/// Parsing the `#rrggbb` string of a colour gives back its channels: the
/// string can be sliced as parsing needs, and its three fields are `r`, `g`
/// and `b`.
pub proof fn law_hex_color_round_trip(r: u8, g: u8, b: u8, s: &str)
    requires
        s@ == hex_color_chars(r, g, b),
    ensures
        hex_fields_sliceable(s.spec_bytes()),
        parsed_rgb(s.spec_bytes()) == (r, g, b),
{
    let c = s@;
    lemma_hex_digit_char(r as int / 16);
    lemma_hex_digit_char(r as int % 16);
    lemma_hex_digit_char(g as int / 16);
    lemma_hex_digit_char(g as int % 16);
    lemma_hex_digit_char(b as int / 16);
    lemma_hex_digit_char(b as int % 16);
    assert(c.len() == 7);
    assert(vstd::utf8::is_ascii_chars(c));
    vstd::string::is_ascii_spec_bytes(s);
    let bytes = s.spec_bytes();
    assert(bytes.len() == 7);
    assert(bytes[0] == 35);
    assert(bytes[1] == c[1] as u8);
    assert(bytes.drop_first()[0] == bytes[1]);
    assert(leading_hashes(bytes.drop_first()) == 0);
    assert(leading_hashes(bytes) == 1);
    assert(bytes[1] as int == c[1] as int);
}

/// The uppercase hexadecimal digit for `d` (`0 <= d < 16`), as an ASCII
/// byte: `0`-`9`, then `A`-`F`.
pub open spec fn upper_hex_byte(d: int) -> u8
    recommends
        0 <= d < 16,
{
    if d < 10 {
        (48 + d) as u8
    } else {
        (65 + d - 10) as u8
    }
}

/// The lowercase hexadecimal digit for `d` (`0 <= d < 16`), as an ASCII
/// byte: `0`-`9`, then `a`-`f`.
pub open spec fn lower_hex_byte(d: int) -> u8
    recommends
        0 <= d < 16,
{
    if d < 10 {
        (48 + d) as u8
    } else {
        (97 + d - 10) as u8
    }
}

/// Every two-digit base-16 numeral reads as its value, whichever case its
/// letters are written in: the digits `hi` and `lo` read as `16 * hi + lo`.
pub proof fn law_pair_reads_its_value(hi: int, lo: int)
    requires
        0 <= hi < 16,
        0 <= lo < 16,
    ensures
        radix16_pair_or_zero(upper_hex_byte(hi), upper_hex_byte(lo)) == 16 * hi + lo,
        radix16_pair_or_zero(lower_hex_byte(hi), lower_hex_byte(lo)) == 16 * hi + lo,
        radix16_pair_or_zero(upper_hex_byte(hi), lower_hex_byte(lo)) == 16 * hi + lo,
        radix16_pair_or_zero(lower_hex_byte(hi), upper_hex_byte(lo)) == 16 * hi + lo,
{
}

/// The six bytes of `#RRGGBB`, after the `#`, with uppercase digits.
pub open spec fn upper_hex_fields(r: u8, g: u8, b: u8) -> Seq<u8> {
    seq![
        upper_hex_byte(r as int / 16), upper_hex_byte(r as int % 16),
        upper_hex_byte(g as int / 16), upper_hex_byte(g as int % 16),
        upper_hex_byte(b as int / 16), upper_hex_byte(b as int % 16),
    ]
}

/// Parsing an uppercase `#RRGGBB` text gives back its channels.
pub proof fn law_upper_hex_round_trip(r: u8, g: u8, b: u8)
    ensures
        parsed_rgb(seq![35u8] + upper_hex_fields(r, g, b)) == (r, g, b),
{
    let bytes = seq![35u8] + upper_hex_fields(r, g, b);
    law_pair_reads_its_value(r as int / 16, r as int % 16);
    law_pair_reads_its_value(g as int / 16, g as int % 16);
    law_pair_reads_its_value(b as int / 16, b as int % 16);
    assert(bytes.drop_first() =~= upper_hex_fields(r, g, b));
    assert(upper_hex_fields(r, g, b)[0] != 35);
    assert(leading_hashes(bytes.drop_first()) == 0);
    assert(leading_hashes(bytes) == 1);
}

} // verus!
