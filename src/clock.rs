//! Efficient strftime-style clock formatting for columnar system monitoring

use crate::time::{format_width, items_width, FormatItem, FormatWidthError};
use vstd::prelude::*;

verus! {

/// Strftime-style clock formatting with a known maximal output width
pub struct ClockFormat {
    /// Cached max output width expected from the format
    max_output_width: usize,
}

impl ClockFormat {
    /// Maximal width of the formatted output
    pub closed spec fn width(&self) -> nat {
        self.max_output_width as nat
    }

    /// Construct a clock formatter from a parsed strftime-style format.
    ///
    /// Every element must have a bounded width: this excludes timezone names,
    /// line breaks, and unparsed text.
    pub fn new(items: &Vec<FormatItem>) -> (r: Result<ClockFormat, FormatWidthError>)
        ensures
            r is Ok <==> items_width(items@) is Ok && items_width(items@)->Ok_0 <= usize::MAX,
            r matches Ok(f) ==> f.width() == items_width(items@)->Ok_0,
            r matches Err(e) ==> e == match items_width(items@) {
                Err(first) => first,
                Ok(_) => FormatWidthError::TooWide,
            },
    {
        match format_width(items) {
            Ok(w) => Ok(ClockFormat { max_output_width: w }),
            Err(e) => Err(e),
        }
    }

    /// Indicate the maximum width of the formatted output in grapheme clusters
    pub fn max_output_width(&self) -> (r: usize)
        ensures
            r == self.width(),
    {
        self.max_output_width
    }
}

} // verus!
