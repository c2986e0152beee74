use benchmon::clock::ClockFormat;
use benchmon::time::{
    format_width, max_item_width, FixedField, FormatItem, FormatWidthError, Formatter, NumericField,
};

fn hms() -> Vec<FormatItem> {
    vec![
        FormatItem::Numeric(NumericField::Hour),
        FormatItem::Literal(":".to_string()),
        FormatItem::Numeric(NumericField::Minute),
        FormatItem::Literal(":".to_string()),
        FormatItem::Numeric(NumericField::Second),
    ]
}

#[test]
fn numeric_field_widths() {
    let w = |n| max_item_width(&FormatItem::Numeric(n)).unwrap();
    assert_eq!(w(NumericField::Year), 4);
    assert_eq!(w(NumericField::YearDiv100), 2);
    assert_eq!(w(NumericField::Month), 2);
    assert_eq!(w(NumericField::WeekdayFromMon), 1);
    assert_eq!(w(NumericField::Ordinal), 3);
    assert_eq!(w(NumericField::Nanosecond), 9);
    assert_eq!(w(NumericField::Timestamp), 12);
}

#[test]
fn fixed_field_widths() {
    let w = |f| max_item_width(&FormatItem::Fixed(f)).unwrap();
    assert_eq!(w(FixedField::ShortMonthName), 3);
    assert_eq!(w(FixedField::LongMonthName), 9);
    assert_eq!(w(FixedField::LongWeekdayName), 9);
    assert_eq!(w(FixedField::Nanosecond6), 7);
    assert_eq!(w(FixedField::TimezoneOffsetColon), 6);
    assert_eq!(w(FixedField::RFC2822), 31);
    assert_eq!(w(FixedField::RFC3339), 35);
}

#[test]
fn literal_and_space_widths() {
    assert_eq!(max_item_width(&FormatItem::Literal("é".to_string())), Ok(1));
    assert_eq!(max_item_width(&FormatItem::Space("  ".to_string())), Ok(2));
    assert_eq!(
        max_item_width(&FormatItem::Space(" \n".to_string())),
        Err(FormatWidthError::LineBreak)
    );
    assert_eq!(
        max_item_width(&FormatItem::Space("\u{2028}".to_string())),
        Err(FormatWidthError::LineBreak)
    );
}

#[test]
fn unbounded_or_invalid_formats_are_refused() {
    assert_eq!(
        max_item_width(&FormatItem::Fixed(FixedField::TimezoneName)),
        Err(FormatWidthError::TimezoneName)
    );
    let mut items = hms();
    items.push(FormatItem::Error);
    items.push(FormatItem::Fixed(FixedField::TimezoneName));
    assert_eq!(format_width(&items), Err(FormatWidthError::InvalidFormat));
    assert!(Formatter::new(&items).is_err());
    assert_eq!(ClockFormat::new(&items).err(), Some(FormatWidthError::InvalidFormat));
}

#[test]
fn time_column_is_at_least_as_wide_as_its_title() {
    let f = Formatter::new(&hms()).unwrap();
    assert_eq!(f.output_width(), 8);
    assert_eq!(f.display_title(), "──time──");
    assert_eq!(f.display_data("09:05:01"), "09:05:01");
    let short = Formatter::new(&vec![FormatItem::Numeric(NumericField::Hour)]).unwrap();
    assert_eq!(short.output_width(), 4);
    assert_eq!(short.display_data("09"), "09  ");
    assert_eq!(Formatter::new(&Vec::new()).unwrap().output_width(), 4);
}

#[test]
fn clock_format_width_is_the_sum_of_item_widths() {
    assert_eq!(ClockFormat::new(&hms()).unwrap().max_output_width(), 8);
    assert_eq!(ClockFormat::new(&Vec::new()).unwrap().max_output_width(), 0);
}
