use benchmon::cpu::{StatsCounters, StatsDelta};
use benchmon::memory::swap_use_is_significant;
use benchmon::format::{display_col_data, display_col_header, display_information, str_width};

#[test]
fn str_width_counts_grapheme_clusters() {
    assert_eq!(str_width(""), 0);
    assert_eq!(str_width("time"), 4);
    assert_eq!(str_width("e\u{301}t\u{e9}"), 3);
    assert_eq!(str_width("\r\n"), 1);
    assert_eq!(str_width("🇫🇷x"), 2);
}

#[test]
fn column_header_is_centered() {
    assert_eq!(display_col_header("time", 10), "───time───");
    assert_eq!(display_col_header("ab", 5), "─ab──");
    assert_eq!(display_col_header("time", 4), "time");
    assert_eq!(display_col_header("longer", 2), "longer");
    assert_eq!(display_col_header("", 3), "───");
}

#[test]
fn column_data_is_left_aligned() {
    assert_eq!(display_col_data("12:00", 8), "12:00   ");
    assert_eq!(display_col_data("12:00:00", 8), "12:00:00");
    assert_eq!(display_col_data("12:00:00.5", 8), "12:00:00.5");
    assert_eq!(display_col_data("é", 3), "é  ");
}

#[test]
fn information_in_bytes_below_a_thousand() {
    assert_eq!(display_information(0), "0 B");
    assert_eq!(display_information(7), "7 B");
    assert_eq!(display_information(999), "999 B");
}

#[test]
fn information_in_si_units() {
    assert_eq!(display_information(1000), "1.000 kB");
    assert_eq!(display_information(1050), "1.050 kB");
    assert_eq!(display_information(999_999), "999.999 kB");
    assert_eq!(display_information(1_234_567), "1.234 MB");
    assert_eq!(display_information(16_000_000_000), "16.000 GB");
    assert_eq!(display_information(5_000_000_000_000), "5.000 TB");
    assert_eq!(display_information(u64::MAX), "18446744.073 TB");
}

#[test]
fn stats_delta_subtracts_counters() {
    let earlier = StatsCounters { ctx_switches: 10, interrupts: 100, soft_interrupts: 5 };
    let later = StatsCounters { ctx_switches: 25, interrupts: 100, soft_interrupts: 9 };
    let delta = StatsDelta::between(&earlier, &later);
    assert_eq!(
        delta,
        StatsDelta { new_ctx_switches: 15, new_interrupts: 0, new_soft_interrupts: 4 }
    );
}

#[test]
fn swap_use_above_a_tenth_is_significant() {
    assert!(!swap_use_is_significant(0, 1000));
    assert!(!swap_use_is_significant(100, 1000));
    assert!(swap_use_is_significant(101, 1000));
    assert!(!swap_use_is_significant(0, 0));
}
