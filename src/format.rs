//! Column formatting of measurements for tabular terminal output

use unicode_segmentation::UnicodeSegmentation;
use vstd::prelude::*;
use vstd::string::{StrSliceExecFns, StringExecFns};

verus! {

/// Number of extended grapheme clusters in a string.
pub uninterp spec fn grapheme_count(s: Seq<char>) -> nat;

/// Relies on `UnicodeSegmentation::graphemes` (extended clusters) from
/// unicode-segmentation: the count depends on the characters alone, the empty
/// string has no cluster, and every cluster holds at least one character.
#[verifier::external_body]
fn count_graphemes(s: &str) -> (r: usize)
    ensures
        r == grapheme_count(s@),
        (r == 0) == (s@.len() == 0),
        r <= s@.len(),
{
    s.graphemes(true).count()
}

/// Compute the width of a string in grapheme clusters
///
/// This should roughly match the number of terminal columns that this string
/// will occupy when printed to stdout.
pub fn str_width(s: &str) -> (r: usize)
    ensures
        r == grapheme_count(s@),
        (r == 0) == (s@.len() == 0),
        r <= s@.len(),
{
    count_graphemes(s)
}


/// Separator between column headers
pub const COL_HEADER_SEPARATOR: char = '┼';

/// Separator between column data
pub const COL_DATA_SEPARATOR: char = '│';

/// `n` copies of the character `c`.
pub open spec fn fill(c: char, n: nat) -> Seq<char> {
    Seq::new(n, |_i: int| c)
}

/// `text` centered in `width` characters, padded with `c`; the left side
/// gets the smaller half of an odd padding. Text at least as long as the
/// width is kept as it is.
pub open spec fn centered(text: Seq<char>, width: nat, c: char) -> Seq<char> {
    if text.len() >= width {
        text
    } else {
        let pad = (width - text.len()) as nat;
        fill(c, pad / 2) + text + fill(c, (pad - pad / 2) as nat)
    }
}

/// `text` aligned left in `width` characters, padded with spaces.
pub open spec fn left_aligned(text: Seq<char>, width: nat) -> Seq<char> {
    if text.len() >= width {
        text
    } else {
        text + fill(' ', (width - text.len()) as nat)
    }
}

/// Append `n` copies of a one-character string.
fn append_fill(s: &mut String, c: &str, n: usize)
    requires
        c@.len() == 1,
    ensures
        final(s)@ == old(s)@ + fill(c@[0], n as nat),
{
    let ghost start = s@;
    for i in 0..n
        invariant
            c@.len() == 1,
            s@ == start + fill(c@[0], i as nat),
    {
        s.append(c);
        assert(s@ =~= start + fill(c@[0], (i + 1) as nat));
    }
}

/// Display the header of a column of measurements: the text, centered in
/// the column's width with '─' on either side.
pub fn display_col_header(text: &str, width: usize) -> (r: String)
    ensures
        r@ == centered(text@, width as nat, '─'),
{
    proof {
        reveal_strlit("─");
    }
    let len = text.unicode_len();
    let mut r = String::new();
    if len >= width {
        r.append(text);
    } else {
        let pad = width - len;
        append_fill(&mut r, "─", pad / 2);
        r.append(text);
        append_fill(&mut r, "─", pad - pad / 2);
    }
    assert(r@ =~= centered(text@, width as nat, '─'));
    r
}

/// Display a measurement within a column: the text, aligned left and padded
/// with spaces to the column's width.
pub fn display_col_data(data: &str, width: usize) -> (r: String)
    ensures
        r@ == left_aligned(data@, width as nat),
{
    proof {
        reveal_strlit(" ");
    }
    let len = data.unicode_len();
    let mut r = String::from_str(data);
    if len < width {
        append_fill(&mut r, " ", width - len);
    }
    r
}

/// The decimal digit of value `d`.
pub open spec fn digit_char(d: nat) -> char {
    if d == 0 {
        '0'
    } else if d == 1 {
        '1'
    } else if d == 2 {
        '2'
    } else if d == 3 {
        '3'
    } else if d == 4 {
        '4'
    } else if d == 5 {
        '5'
    } else if d == 6 {
        '6'
    } else if d == 7 {
        '7'
    } else if d == 8 {
        '8'
    } else {
        '9'
    }
}

/// The decimal writing of `n`, without leading zeros.
pub open spec fn decimal(n: nat) -> Seq<char>
    decreases n,
{
    if n < 10 {
        seq![digit_char(n)]
    } else {
        decimal(n / 10).push(digit_char(n % 10))
    }
}

/// The decimal writing of `n`, with leading zeros up to three digits.
pub open spec fn decimal3(n: nat) -> Seq<char> {
    if decimal(n).len() >= 3 {
        decimal(n)
    } else {
        fill('0', (3 - decimal(n).len()) as nat) + decimal(n)
    }
}

/// A quantity of bytes in a unit of `base` bytes, with three decimals.
pub open spec fn si_text(bytes: nat, base: nat, unit: Seq<char>) -> Seq<char> {
    decimal(bytes / base) + "."@ + decimal3((bytes / (base / 1000)) % 1000) + " "@ + unit
}

/// A quantity of information: in bytes below a thousand, else in the
/// largest SI unit up to terabytes that it reaches, with three decimals
/// (truncated).
pub open spec fn information_text(bytes: nat) -> Seq<char> {
    if bytes < 1000 {
        decimal(bytes) + " B"@
    } else if bytes < 1_000_000 {
        si_text(bytes, 1000, "kB"@)
    } else if bytes < 1_000_000_000 {
        si_text(bytes, 1_000_000, "MB"@)
    } else if bytes < 1_000_000_000_000 {
        si_text(bytes, 1_000_000_000, "GB"@)
    } else {
        si_text(bytes, 1_000_000_000_000, "TB"@)
    }
}

/// Append the decimal digit of value `d`.
fn append_digit(s: &mut String, d: u64)
    requires
        d < 10,
    ensures
        final(s)@ == old(s)@.push(digit_char(d as nat)),
{
    proof {
        reveal_strlit("0");
        reveal_strlit("1");
        reveal_strlit("2");
        reveal_strlit("3");
        reveal_strlit("4");
        reveal_strlit("5");
        reveal_strlit("6");
        reveal_strlit("7");
        reveal_strlit("8");
        reveal_strlit("9");
    }
    let ghost start = s@;
    if d == 0 {
        s.append("0");
    } else if d == 1 {
        s.append("1");
    } else if d == 2 {
        s.append("2");
    } else if d == 3 {
        s.append("3");
    } else if d == 4 {
        s.append("4");
    } else if d == 5 {
        s.append("5");
    } else if d == 6 {
        s.append("6");
    } else if d == 7 {
        s.append("7");
    } else if d == 8 {
        s.append("8");
    } else {
        s.append("9");
    }
    assert(s@ =~= start.push(digit_char(d as nat)));
}

/// Append the decimal writing of `n`.
fn append_decimal(s: &mut String, n: u64)
    ensures
        final(s)@ == old(s)@ + decimal(n as nat),
    decreases n,
{
    let ghost start = s@;
    if n < 10 {
        append_digit(s, n);
        assert(s@ =~= start + decimal(n as nat));
    } else {
        append_decimal(s, n / 10);
        append_digit(s, n % 10);
        assert(s@ =~= start + decimal(n as nat));
    }
}

/// Append the decimal writing of `n` with leading zeros up to three digits.
fn append_decimal3(s: &mut String, n: u64)
    requires
        n < 1000,
    ensures
        final(s)@ == old(s)@ + decimal3(n as nat),
{
    proof {
        reveal_strlit("0");
        reveal_with_fuel(decimal, 4);
    }
    let ghost start = s@;
    if n < 10 {
        append_fill(s, "0", 2);
    } else if n < 100 {
        append_fill(s, "0", 1);
    }
    append_decimal(s, n);
    assert(s@ =~= start + decimal3(n as nat));
}

/// Append a quantity of bytes in a unit of `base` bytes, with three decimals.
fn append_si(s: &mut String, bytes: u64, base: u64, unit: &str)
    requires
        base == 1000 || base == 1_000_000 || base == 1_000_000_000 || base == 1_000_000_000_000,
    ensures
        final(s)@ == old(s)@ + si_text(bytes as nat, base as nat, unit@),
{
    let ghost start = s@;
    append_decimal(s, bytes / base);
    s.append(".");
    append_decimal3(s, (bytes / (base / 1000)) % 1000);
    s.append(" ");
    s.append(unit);
    assert(s@ =~= start + si_text(bytes as nat, base as nat, unit@));
}

/// Display a quantity of information, given in bytes.
pub fn display_information(bytes: u64) -> (r: String)
    ensures
        r@ == information_text(bytes as nat),
{
    let mut r = String::new();
    if bytes < 1000 {
        append_decimal(&mut r, bytes);
        r.append(" B");
    } else if bytes < 1_000_000 {
        append_si(&mut r, bytes, 1000, "kB");
    } else if bytes < 1_000_000_000 {
        append_si(&mut r, bytes, 1_000_000, "MB");
    } else if bytes < 1_000_000_000_000 {
        append_si(&mut r, bytes, 1_000_000_000, "GB");
    } else {
        append_si(&mut r, bytes, 1_000_000_000_000, "TB");
    }
    assert(r@ =~= information_text(bytes as nat));
    r
}

} // verus!
