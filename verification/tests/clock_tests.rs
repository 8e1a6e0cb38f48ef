use server_core::clock::{format_clock, get_timestamp, timestamp, timestamp_at};

fn is_clock_shape(t: &str) -> bool {
    let b = t.as_bytes();
    b.len() == 8
        && b[2] == b':'
        && b[5] == b':'
        && [0usize, 1, 3, 4, 6, 7].iter().all(|&i| b[i].is_ascii_digit())
}

#[test]
fn clock_text_of_epoch_seconds() {
    assert_eq!(timestamp_at(0), "00:00:00");
    assert_eq!(timestamp_at(3_661), "01:01:01");
    assert_eq!(timestamp_at(86_399), "23:59:59");
    assert_eq!(timestamp_at(86_400), "00:00:00");
    assert_eq!(timestamp_at(1_725_029_869), "14:57:49");
}

#[test]
fn clock_text_is_zero_padded() {
    assert_eq!(format_clock(7, 5, 9), "07:05:09");
    assert_eq!(format_clock(23, 59, 60), "23:59:60");
}

#[test]
fn system_clock_readings_have_clock_shape() {
    let a = timestamp();
    let b = get_timestamp();
    assert!(is_clock_shape(&a), "{a}");
    assert!(is_clock_shape(&b), "{b}");
    let h: u32 = a[0..2].parse().unwrap();
    assert!(h < 24);
}
