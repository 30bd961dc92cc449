//! The calls this library makes into outside crates, with what it relies on
//! about each of them.

use num_iter::range_step;
use termion::color;
use unicode_segmentation::UnicodeSegmentation;
use vstd::prelude::*;

verus! {

/// The number of extended grapheme clusters (user-perceived characters) of a text.
pub uninterp spec fn grapheme_count(s: Seq<char>) -> nat;

/// Relies on `UnicodeSegmentation::graphemes(s, true)` of unicode_segmentation:
/// the number of extended grapheme clusters depends on the characters alone.
#[verifier::external_body]
pub(crate) fn count_graphemes(s: &str) -> (n: usize)
    ensures
        n == grapheme_count(s@),
{
    s.graphemes(true).count()
}

/// The decimal digit for `d`, which is below ten.
pub open spec fn digit(d: nat) -> char {
    seq!['0', '1', '2', '3', '4', '5', '6', '7', '8', '9'][d as int]
}

/// The decimal notation of `n`, without leading zeros.
pub open spec fn decimal(n: nat) -> Seq<char>
    decreases n,
{
    if n < 10 {
        seq![digit(n)]
    } else {
        decimal(n / 10) + seq![digit(n % 10)]
    }
}

/// The escape sequence that sets the foreground to entry `v` of the 256-colour palette.
pub open spec fn fg_palette_seq(v: u8) -> Seq<char> {
    "\x1b[38;5;"@ + decimal(v as nat) + "m"@
}

/// Relies on termion's `AnsiValue::fg_string`: `ESC [ 38;5;` then `v` in
/// decimal, then `m`.
#[verifier::external_body]
pub(crate) fn fg_palette(v: u8) -> (r: String)
    ensures
        r@ == fg_palette_seq(v),
{
    color::AnsiValue(v).fg_string()
}

/// Relies on termion's `AnsiValue::rgb`: the entry `16 + 36 r + 6 g + b` of
/// the 256-colour palette, for components up to 5.
#[verifier::external_body]
pub(crate) fn palette_rgb(r: u8, g: u8, b: u8) -> (v: u8)
    requires
        r <= 5,
        g <= 5,
        b <= 5,
    ensures
        v == 16 + 36 * r + 6 * g + b,
{
    color::AnsiValue::rgb(r, g, b).0
}

/// The escape sequence that restores the default foreground colour.
pub open spec fn fg_reset_seq() -> Seq<char> {
    "\x1b[39m"@
}

/// Relies on termion's `Reset::fg_str`: `ESC [ 39m`.
#[verifier::external_body]
pub(crate) fn fg_reset() -> (r: String)
    ensures
        r@ == fg_reset_seq(),
{
    color::Reset.fg_str().to_string()
}

/// Relies on num_iter's `range_step(start, stop, -1)`: `start`, `start - 1`,
/// and so on while above `stop`.
#[verifier::external_body]
pub(crate) fn count_down(start: i64, stop: i64) -> (r: Vec<i64>)
    ensures
        r@.len() == (if start > stop { start - stop } else { 0 }),
        forall|i: int| 0 <= i < r@.len() ==> r@[i] == start - i,
{
    range_step(start, stop, -1).collect()
}

} // verus!
