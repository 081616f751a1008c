//! Sizes, times and speed.

use ia_get::speed::{update_transfer_progress_bar, update_transfer_progress_bar_at, SpeedCalc};
use ia_get::units::{eta_seconds, format_duration, format_progress_eta_message, format_size};

#[test]
fn eta_seconds_matches_aria2_remaining_over_speed() {
    assert_eq!(eta_seconds(1_000, 100, 50), Some(18));
    assert_eq!(eta_seconds(1_000, 1_000, 50), None);
    assert_eq!(eta_seconds(1_000, 100, 0), None);
}

#[test]
fn speed_calc_reports_session_bytes_only() {
    let mut speed = SpeedCalc::new();
    speed.update(512);
    speed.update(512);
    assert_eq!(speed.accumulated_length(), 1024);
}

const SECOND: u128 = 1_000_000_000;

#[test]
fn sizes_agree_with_the_floating_point_format() {
    let mut sizes: Vec<u64> = vec![
        0, 1, 512, 1023, 1024, 1029, 1030, 1034, 1035, 1536, 5_242_880, 12_345, 1_048_575, 1_048_576,
        1_053_819, 2_097_152, 1_073_741_823, 1_073_741_824, 1_500_000_000, u64::MAX, u64::MAX - 1,
    ];
    for k in 0..64 {
        let power = 1u64 << k;
        sizes.extend([power - 1, power, power + 1, power + power / 3, power + power / 2]);
    }
    let mut state: u64 = 88_172_645_463_325_252;
    for _ in 0..20_000 {
        state ^= state << 13;
        state ^= state >> 7;
        state ^= state << 17;
        sizes.push(state >> (state % 60));
    }
    for size in sizes {
        let expected = if size < 1024 {
            format!("{}B", size)
        } else if size < 1024 * 1024 {
            format!("{:.2}KB", size as f64 / 1024.0)
        } else if size < 1024 * 1024 * 1024 {
            format!("{:.2}MB", size as f64 / (1024.0 * 1024.0))
        } else {
            format!("{:.2}GB", size as f64 / (1024.0 * 1024.0 * 1024.0))
        };
        assert_eq!(format_size(size), expected);
    }
}

#[test]
fn sizes_have_two_decimals() {
    assert_eq!(format_size(0), "0B");
    assert_eq!(format_size(1023), "1023B");
    assert_eq!(format_size(1024), "1.00KB");
    assert_eq!(format_size(12_345), "12.06KB");
    assert_eq!(format_size(3 * 1024 * 1024), "3.00MB");
    assert_eq!(format_size(1_610_612_736), "1.50GB");
}

#[test]
fn durations_are_written_in_their_largest_units() {
    assert_eq!(format_duration(0, 0), "0.00s");
    assert_eq!(format_duration(3, 59), "3.05s");
    assert_eq!(format_duration(59, 999), "59.99s");
    assert_eq!(format_duration(60, 999), "1m 0s");
    assert_eq!(format_duration(3_599, 0), "59m 59s");
    assert_eq!(format_duration(3_600, 0), "1h 0m 0s");
    assert_eq!(format_duration(90_061, 0), "25h 1m 1s");
}

#[test]
fn remaining_time_is_rounded_up() {
    assert_eq!(eta_seconds(100, 0, 100), Some(1));
    assert_eq!(eta_seconds(101, 0, 100), Some(2));
    assert_eq!(eta_seconds(u64::MAX, 0, 1), Some(u64::MAX));
    assert_eq!(eta_seconds(5, 9, 1), None);
}

#[test]
fn remaining_time_is_told_where_it_is_known() {
    assert_eq!(format_progress_eta_message(1_000, 100, 50), "(ETA: 18.00s)");
    assert_eq!(format_progress_eta_message(1_000, 100, 10), "(ETA: 1m 30s)");
    assert_eq!(format_progress_eta_message(1_000, 1_000, 10), "");
    assert_eq!(format_progress_eta_message(1_000, 0, 0), "");
}

#[test]
fn speed_is_taken_over_ten_seconds() {
    let mut speed = SpeedCalc::new();
    speed.update_at(0, 1000);
    speed.update_at(2 * SECOND, 1000);
    assert_eq!(speed.speed_bps_at(4 * SECOND), 500);
    // The first slot is older than the window.
    assert_eq!(speed.speed_bps_at(11 * SECOND), 111);
    assert_eq!(speed.speed_bps_at(30 * SECOND), 0);
    assert_eq!(speed.accumulated_length(), 2000);
}

#[test]
fn bytes_within_a_second_share_a_slot() {
    let mut speed = SpeedCalc::new();
    speed.update_at(0, 100);
    speed.update_at(SECOND - 1, 100);
    speed.update_at(SECOND, 100);
    // Both of the first chunks leave the window together.
    assert_eq!(speed.speed_bps_at(10 * SECOND + 1), 11);
    assert_eq!(speed.accumulated_length(), 300);
}

#[test]
fn no_time_counts_as_a_millisecond() {
    let mut speed = SpeedCalc::new();
    speed.update_at(5, 7);
    assert_eq!(speed.speed_bps_at(5), 7000);
    assert_eq!(SpeedCalc::new().speed_bps(), 0);
}

#[test]
fn progress_counts_on_from_what_was_there() {
    let mut speed = SpeedCalc::new();
    let (completed, message) =
        update_transfer_progress_bar_at(&mut speed, 0, 2 * SECOND, 500, 2_000, 1_000);
    assert_eq!(completed, 1_500);
    assert_eq!(message, "(ETA: 1.00s)");

    let mut now = SpeedCalc::new();
    let (completed, _) = update_transfer_progress_bar(&mut now, 500, 1_000, 500);
    assert_eq!(completed, 1_000);
    assert_eq!(now.accumulated_length(), 500);
}

#[test]
fn a_copy_of_the_speed_counts_alike() {
    let mut speed = SpeedCalc::new();
    speed.update_at(0, 10);
    let mut copy = speed.clone();
    assert_eq!(copy.speed_bps_at(SECOND), speed.speed_bps_at(SECOND));
    assert_eq!(copy.accumulated_length(), 10);
}
