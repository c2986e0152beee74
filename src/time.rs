//! Strftime-style time column formatting: the widest output that a parsed
//! format string can produce, in grapheme clusters.

use crate::format::{
    centered, display_col_data, display_col_header, grapheme_count, left_aligned, str_width,
};
use vstd::prelude::*;
use vstd::string::StrSliceExecFns;

verus! {

/// A numeric field of a date/time format
#[derive(Copy, Clone, Debug, Eq, PartialEq, Structural)]
pub enum NumericField {
    Year,
    YearDiv100,
    YearMod100,
    IsoYear,
    IsoYearDiv100,
    IsoYearMod100,
    Quarter,
    Month,
    Day,
    WeekFromSun,
    WeekFromMon,
    IsoWeek,
    NumDaysFromSun,
    WeekdayFromMon,
    Ordinal,
    Hour,
    Hour12,
    Minute,
    Second,
    Nanosecond,
    Timestamp,
}

/// A fixed-format field of a date/time format
#[derive(Copy, Clone, Debug, Eq, PartialEq, Structural)]
pub enum FixedField {
    ShortMonthName,
    LongMonthName,
    ShortWeekdayName,
    LongWeekdayName,
    LowerAmPm,
    UpperAmPm,
    Nanosecond,
    Nanosecond3,
    Nanosecond6,
    Nanosecond9,
    TimezoneName,
    TimezoneOffsetColon,
    TimezoneOffsetDoubleColon,
    TimezoneOffsetTripleColon,
    TimezoneOffsetColonZ,
    TimezoneOffset,
    TimezoneOffsetZ,
    RFC2822,
    RFC3339,
}

/// One parsed element of a strftime-style format string
#[derive(Debug)]
pub enum FormatItem {
    /// Text printed as it is
    Literal(String),
    /// Whitespace printed as it is
    Space(String),
    /// A numeric field
    Numeric(NumericField),
    /// A fixed-format field
    Fixed(FixedField),
    /// A part of the format string that did not parse
    Error,
}

/// Why a format string is unfit for a column of bounded width
#[derive(Copy, Clone, Debug, Eq, PartialEq, Structural)]
pub enum FormatWidthError {
    /// Line breaks are not acceptable in tabular output
    LineBreak,
    /// Timezone names have no bounded length
    TimezoneName,
    /// The format string is invalid
    InvalidFormat,
    /// The width does not fit in a machine integer
    TooWide,
}

/// The largest year that formatted dates may carry: four digits are enough.
pub const MAX_SUPPORTED_YEAR: i32 = 9999;

/// Widest output of each numeric field for years up to `MAX_SUPPORTED_YEAR`.
pub open spec fn numeric_width(n: NumericField) -> nat {
    match n {
        NumericField::Year | NumericField::IsoYear => 4,
        NumericField::YearDiv100 | NumericField::IsoYearDiv100 => 2,
        NumericField::Quarter | NumericField::NumDaysFromSun | NumericField::WeekdayFromMon => 1,
        NumericField::Ordinal => 3,
        NumericField::Nanosecond => 9,
        // Seconds from 1970 to the end of MAX_SUPPORTED_YEAR take 12 digits
        NumericField::Timestamp => 12,
        _ => 2,
    }
}

/// Whether a character breaks a line.
pub open spec fn is_line_break(c: char) -> bool {
    c == '\n' || c == '\u{b}' || c == '\u{c}' || c == '\r' || c == '\u{85}' || c == '\u{2028}'
        || c == '\u{2029}'
}

/// Whether a text holds a line break.
pub open spec fn has_line_break(s: Seq<char>) -> bool {
    exists|i: int| 0 <= i < s.len() && is_line_break(s[i])
}

/// English month names, the longest of which bounds the long month field.
pub open spec fn month_names() -> Seq<Seq<char>> {
    seq![
        "January"@, "February"@, "March"@, "April"@, "May"@, "June"@, "July"@, "August"@,
        "September"@, "October"@, "November"@, "December"@,
    ]
}

/// English weekday names, the longest of which bounds the long weekday field.
pub open spec fn weekday_names() -> Seq<Seq<char>> {
    seq!["Monday"@, "Tuesday"@, "Wednesday"@, "Thursday"@, "Friday"@, "Saturday"@, "Sunday"@]
}

/// The widest of some texts, in grapheme clusters.
pub open spec fn max_width(names: Seq<Seq<char>>) -> nat
    decreases names.len(),
{
    if names.len() == 0 {
        0
    } else {
        let rest = max_width(names.drop_last());
        let last = grapheme_count(names.last());
        if last > rest {
            last
        } else {
            rest
        }
    }
}

/// Widest output of each fixed-format field; `None` for timezone names,
/// whose length has no bound.
pub open spec fn fixed_width(f: FixedField) -> Option<nat> {
    match f {
        FixedField::ShortMonthName | FixedField::ShortWeekdayName => Some(3),
        FixedField::LongMonthName => Some(max_width(month_names())),
        FixedField::LongWeekdayName => Some(max_width(weekday_names())),
        FixedField::LowerAmPm | FixedField::UpperAmPm => Some(2),
        FixedField::Nanosecond | FixedField::Nanosecond9 => Some(10),
        FixedField::Nanosecond3 => Some(4),
        FixedField::Nanosecond6 => Some(7),
        FixedField::TimezoneName => None,
        FixedField::TimezoneOffsetColon | FixedField::TimezoneOffsetColonZ => Some(6),
        FixedField::TimezoneOffsetDoubleColon => Some(9),
        FixedField::TimezoneOffsetTripleColon => Some(3),
        FixedField::TimezoneOffset | FixedField::TimezoneOffsetZ => Some(5),
        // "%a, %e %b %Y %H:%M:%S %z"
        FixedField::RFC2822 => Some(
            3 + grapheme_count(","@) + 5 * grapheme_count(" "@) + 2 + 3 + 4 + 2 + 2
                * grapheme_count(":"@) + 2 + 2 + 5,
        ),
        // "%Y-%m-%dT%H:%M:%S%.f%:z"
        FixedField::RFC3339 => Some(
            4 + 2 * grapheme_count("-"@) + 2 + 2 + grapheme_count("T"@) + 2 + 2 * grapheme_count(
                ":"@,
            ) + 2 + 2 + 10 + 6,
        ),
    }
}

/// The widest output of one item, or why it has none.
pub open spec fn item_width(item: FormatItem) -> Result<nat, FormatWidthError> {
    match item {
        FormatItem::Literal(l) => Ok(grapheme_count(l@)),
        FormatItem::Space(s) => if has_line_break(s@) {
            Err(FormatWidthError::LineBreak)
        } else {
            Ok(grapheme_count(s@))
        },
        FormatItem::Numeric(n) => Ok(numeric_width(n)),
        FormatItem::Fixed(f) => match fixed_width(f) {
            Some(w) => Ok(w),
            None => Err(FormatWidthError::TimezoneName),
        },
        FormatItem::Error => Err(FormatWidthError::InvalidFormat),
    }
}

/// The widest output of a sequence of items: the sum of their widths, or
/// the reason of the first item that has none.
pub open spec fn items_width(items: Seq<FormatItem>) -> Result<nat, FormatWidthError>
    decreases items.len(),
{
    if items.len() == 0 {
        Ok(0)
    } else {
        match items_width(items.drop_last()) {
            Err(e) => Err(e),
            Ok(w) => match item_width(items.last()) {
                Err(e) => Err(e),
                Ok(v) => Ok(w + v),
            },
        }
    }
}


/// Whether a text holds a line break.
fn contains_line_break(s: &str) -> (r: bool)
    ensures
        r == has_line_break(s@),
{
    let n = s.unicode_len();
    for i in 0..n
        invariant
            n == s@.len(),
            forall|k: int| 0 <= k < i ==> !is_line_break(s@[k]),
    {
        let c = s.get_char(i);
        if c == '\n' || c == '\u{b}' || c == '\u{c}' || c == '\r' || c == '\u{85}' || c == '\u{2028}'
            || c == '\u{2029}' {
            return true;
        }
    }
    false
}

/// The widest of some texts, in grapheme clusters.
fn widest(names: &Vec<&str>) -> (r: usize)
    ensures
        r == max_width(names@.map_values(|s: &str| s@)),
{
    let ghost views = names@.map_values(|s: &str| s@);
    let mut r: usize = 0;
    for i in 0..names.len()
        invariant
            views == names@.map_values(|s: &str| s@),
            r == max_width(views.take(i as int)),
    {
        let w = str_width(names[i]);
        assert(views.take(i + 1).drop_last() =~= views.take(i as int));
        if w > r {
            r = w;
        }
    }
    assert(views.take(names.len() as int) =~= views);
    r
}

/// The widest output of one item of a format, in grapheme clusters, or why
/// it has none.
pub fn max_item_width(item: &FormatItem) -> (r: Result<usize, FormatWidthError>)
    ensures
        r matches Ok(w) ==> item_width(*item) == Ok::<nat, FormatWidthError>(w as nat),
        r matches Err(e) ==> item_width(*item) == Err::<nat, FormatWidthError>(e),
{
    match item {
        FormatItem::Literal(l) => Ok(str_width(l.as_str())),
        FormatItem::Space(s) => {
            if contains_line_break(s.as_str()) {
                Err(FormatWidthError::LineBreak)
            } else {
                Ok(str_width(s.as_str()))
            }
        },
        FormatItem::Numeric(n) => Ok(
            match n {
                NumericField::Year | NumericField::IsoYear => 4,
                NumericField::YearDiv100 | NumericField::IsoYearDiv100 => 2,
                NumericField::Quarter | NumericField::NumDaysFromSun
                | NumericField::WeekdayFromMon => 1,
                NumericField::Ordinal => 3,
                NumericField::Nanosecond => 9,
                NumericField::Timestamp => 12,
                _ => 2,
            },
        ),
        FormatItem::Fixed(f) => match f {
            FixedField::ShortMonthName | FixedField::ShortWeekdayName => Ok(3),
            FixedField::LongMonthName => {
                let names = vec![
                    "January", "February", "March", "April", "May", "June", "July", "August",
                    "September", "October", "November", "December",
                ];
                assert(names@.map_values(|s: &str| s@) =~= month_names());
                Ok(widest(&names))
            },
            FixedField::LongWeekdayName => {
                let names = vec![
                    "Monday", "Tuesday", "Wednesday", "Thursday", "Friday", "Saturday", "Sunday",
                ];
                assert(names@.map_values(|s: &str| s@) =~= weekday_names());
                Ok(widest(&names))
            },
            FixedField::LowerAmPm | FixedField::UpperAmPm => Ok(2),
            FixedField::Nanosecond | FixedField::Nanosecond9 => Ok(10),
            FixedField::Nanosecond3 => Ok(4),
            FixedField::Nanosecond6 => Ok(7),
            FixedField::TimezoneName => Err(FormatWidthError::TimezoneName),
            FixedField::TimezoneOffsetColon | FixedField::TimezoneOffsetColonZ => Ok(6),
            FixedField::TimezoneOffsetDoubleColon => Ok(9),
            FixedField::TimezoneOffsetTripleColon => Ok(3),
            FixedField::TimezoneOffset | FixedField::TimezoneOffsetZ => Ok(5),
            FixedField::RFC2822 => {
                proof {
                    reveal_strlit(",");
                    reveal_strlit(" ");
                    reveal_strlit(":");
                }
                let comma = str_width(",");
                let space = str_width(" ");
                let colon = str_width(":");
                Ok(3 + comma + 5 * space + 2 + 3 + 4 + 2 + 2 * colon + 2 + 2 + 5)
            },
            FixedField::RFC3339 => {
                proof {
                    reveal_strlit("-");
                    reveal_strlit("T");
                    reveal_strlit(":");
                }
                let dash = str_width("-");
                let t = str_width("T");
                let colon = str_width(":");
                Ok(4 + 2 * dash + 2 + 2 + t + 2 + 2 * colon + 2 + 2 + 10 + 6)
            },
        },
        FormatItem::Error => Err(FormatWidthError::InvalidFormat),
    }
}

/// The widest output of a parsed format string, in grapheme clusters: the
/// sum of its items' widths, or the reason of the first item that has none.
pub fn format_width(items: &Vec<FormatItem>) -> (r: Result<usize, FormatWidthError>)
    ensures
        r == match items_width(items@) {
            Err(e) => Err(e),
            Ok(w) => if w <= usize::MAX {
                Ok(w as usize)
            } else {
                Err(FormatWidthError::TooWide)
            },
        },
{
    let mut total: usize = 0;
    let mut overflow = false;
    for i in 0..items.len()
        invariant
            items_width(items@.take(i as int)) is Ok,
            overflow ==> items_width(items@.take(i as int))->Ok_0 > usize::MAX,
            !overflow ==> items_width(items@.take(i as int)) == Ok::<nat, FormatWidthError>(total as nat),
    {
        let ghost prefix = items@.take(i + 1);
        assert(prefix.drop_last() =~= items@.take(i as int));
        match max_item_width(&items[i]) {
            Err(e) => {
                assert(items_width(prefix) == Err::<nat, FormatWidthError>(e));
                proof {
                    lemma_items_width_error_persists(items@, i + 1);
                }
                assert(items@.take(items.len() as int) =~= items@);
                return Err(e);
            },
            Ok(w) => {
                if !overflow {
                    match total.checked_add(w) {
                        Some(t) => total = t,
                        None => overflow = true,
                    }
                }
            },
        }
    }
    assert(items@.take(items.len() as int) =~= items@);
    if overflow {
        Err(FormatWidthError::TooWide)
    } else {
        Ok(total)
    }
}

/// Once a prefix of the items has no width, no longer prefix has one: the
/// first failing item decides.
proof fn lemma_items_width_error_persists(items: Seq<FormatItem>, k: int)
    requires
        0 <= k <= items.len(),
        items_width(items.take(k)) is Err,
    ensures
        items_width(items) == items_width(items.take(k)),
    decreases items.len() - k,
{
    if k < items.len() {
        assert(items.take(k + 1).drop_last() =~= items.take(k));
        lemma_items_width_error_persists(items, k + 1);
    } else {
        assert(items.take(k) =~= items);
    }
}

/// Strftime-style time column formatting
pub struct Formatter {
    /// Width of the column: the widest formatted time, or the title if wider
    max_output_width: usize,
}

impl Formatter {
    /// Width of the column
    pub closed spec fn width(&self) -> nat {
        self.max_output_width as nat
    }

    /// Construct a time column formatter from a parsed strftime-style format.
    ///
    /// Every element must have a bounded width: this excludes timezone names,
    /// line breaks, and unparsed text.
    pub fn new(items: &Vec<FormatItem>) -> (r: Result<Formatter, FormatWidthError>)
        ensures
            r is Ok <==> items_width(items@) is Ok && items_width(items@)->Ok_0 <= usize::MAX,
            r matches Ok(f) ==> f.width() == if items_width(items@)->Ok_0 >= grapheme_count(
                "time"@,
            ) {
                items_width(items@)->Ok_0
            } else {
                grapheme_count("time"@)
            },
            r matches Err(e) ==> e == match items_width(items@) {
                Err(first) => first,
                Ok(_) => FormatWidthError::TooWide,
            },
    {
        match format_width(items) {
            Ok(w) => {
                let title = str_width("time");
                Ok(Formatter { max_output_width: if w >= title { w } else { title } })
            },
            Err(e) => Err(e),
        }
    }

    /// Display the title of the column of results
    pub fn display_title(&self) -> (r: String)
        ensures
            r@ == centered("time"@, self.width(), '─'),
    {
        display_col_header("time", self.max_output_width)
    }

    /// Display a formatted time point within the column of results
    pub fn display_data(&self, formatted: &str) -> (r: String)
        ensures
            r@ == left_aligned(formatted@, self.width()),
    {
        display_col_data(formatted, self.max_output_width)
    }

    /// Indicate the width of the output column in grapheme clusters
    pub fn output_width(&self) -> (r: usize)
        ensures
            r == self.width(),
    {
        self.max_output_width
    }
}

} // verus!
