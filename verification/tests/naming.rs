use circuit_proof::naming::{
    artifact_path_of, artifact_paths, generate_timestamped_filename, get_timestamp, stamp_text,
    stamped_artifact_paths, timestamped_filename, Timestamp,
};
use circuit_proof::text::{
    decimal_len, digit_text, push_decimal, push_padded_decimal, push_signed_decimal,
};

fn at(year: i32, month: u32, day: u32, hour: u32, minute: u32, second: u32, millisecond: u32) -> Timestamp {
    Timestamp { year, month, day, hour, minute, second, millisecond }
}

fn formatted(t: &Timestamp) -> String {
    format!(
        "proof_{}-{:02}-{:02}_{:02}-{:02}-{:02}-{:03}.json",
        t.year, t.month, t.day, t.hour, t.minute, t.second, t.millisecond
    )
}

#[test]
fn file_name_pads_every_part() {
    assert_eq!(
        timestamped_filename(&at(2024, 3, 7, 9, 5, 2, 45)),
        "proof_2024-03-07_09-05-02-045.json"
    );
    assert_eq!(
        timestamped_filename(&at(1999, 12, 31, 23, 59, 59, 999)),
        "proof_1999-12-31_23-59-59-999.json"
    );
    assert_eq!(
        timestamped_filename(&at(2030, 1, 1, 0, 0, 0, 0)),
        "proof_2030-01-01_00-00-00-000.json"
    );
}

#[test]
fn file_name_keeps_digits_beyond_the_padding() {
    // a leap second
    assert_eq!(
        timestamped_filename(&at(2016, 12, 31, 23, 59, 59, 1500)),
        "proof_2016-12-31_23-59-59-1500.json"
    );
    assert_eq!(
        timestamped_filename(&at(12345, 10, 10, 10, 10, 10, 100)),
        "proof_12345-10-10_10-10-10-100.json"
    );
    assert_eq!(timestamped_filename(&at(7, 1, 2, 3, 4, 5, 6)), "proof_7-01-02_03-04-05-006.json");
    assert_eq!(timestamped_filename(&at(-44, 3, 15, 12, 0, 0, 0)), "proof_-44-03-15_12-00-00-000.json");
}

#[test]
fn file_name_is_what_format_writes() {
    let samples = [
        at(0, 1, 1, 0, 0, 0, 0),
        at(2024, 2, 29, 13, 37, 42, 7),
        at(-262142, 12, 31, 23, 59, 59, 1999),
        at(262142, 6, 15, 1, 2, 3, 10),
        at(i32::MIN, u32::MAX, 0, 100, 1000, 4_000_000_000, 99),
        at(i32::MAX, 9, 10, 11, 12, 13, 14),
    ];
    for t in samples {
        assert_eq!(timestamped_filename(&t), formatted(&t));
    }
}

#[test]
fn generated_file_name_has_the_shape_of_a_stamp() {
    let name = generate_timestamped_filename();
    assert!(name.starts_with("proof_"), "{}", name);
    assert!(name.ends_with(".json"), "{}", name);
    let stamp = &name["proof_".len()..name.len() - ".json".len()];
    let (date, time) = stamp.split_once('_').unwrap();
    let date: Vec<&str> = date.rsplitn(3, '-').collect();
    let time: Vec<&str> = time.split('-').collect();
    assert_eq!(date.len(), 3);
    assert_eq!(time.len(), 4);
    let month: u32 = date[1].parse().unwrap();
    let day: u32 = date[0].parse().unwrap();
    assert!((1..=12).contains(&month));
    assert!((1..=31).contains(&day));
    assert_eq!(date[1].len(), 2);
    assert_eq!(date[0].len(), 2);
    assert!(time[0].parse::<u32>().unwrap() <= 23);
    assert!(time[1].parse::<u32>().unwrap() <= 59);
    assert!(time[2].parse::<u32>().unwrap() <= 59);
    assert!(time[3].parse::<u32>().unwrap() <= 1999);
    assert!(time[3].len() >= 3);
    let year: i32 = date[2].parse().unwrap();
    assert!(year >= 2024);
}

#[test]
fn artifact_paths_share_one_stamp() {
    let paths = artifact_paths("2024-03-07_09-05-02");
    assert_eq!(paths.proof, "data/proof_2024-03-07_09-05-02.json");
    assert_eq!(paths.verification_key, "data/vk_2024-03-07_09-05-02.json");
    assert_eq!(paths.public_inputs, "data/public_2024-03-07_09-05-02.json");
    assert_eq!(artifact_path_of("vk", ""), "data/vk_.json");
    assert_eq!(artifact_path_of("", "x"), "data/_x.json");
}

#[test]
fn stamped_artifact_paths_carry_the_time_of_the_call() {
    let paths = stamped_artifact_paths();
    let stamp = paths
        .proof
        .strip_prefix("data/proof_")
        .and_then(|s| s.strip_suffix(".json"))
        .unwrap()
        .to_string();
    assert_eq!(paths.verification_key, format!("data/vk_{}.json", stamp));
    assert_eq!(paths.public_inputs, format!("data/public_{}.json", stamp));
    assert_eq!(stamp.len(), 19, "{}", stamp);
    let bytes = stamp.as_bytes();
    for (i, b) in bytes.iter().enumerate() {
        match i {
            4 | 7 | 13 | 16 => assert_eq!(*b, b'-'),
            10 => assert_eq!(*b, b'_'),
            _ => assert!(b.is_ascii_digit()),
        }
    }
}

#[test]
fn decimal_digits_of_numbers() {
    for d in 0..10u32 {
        assert_eq!(digit_text(d), d.to_string());
    }
    for n in [0u32, 1, 9, 10, 99, 100, 12345, 999_999_999, 1_000_000_000, u32::MAX] {
        assert_eq!(decimal_len(n), n.to_string().len());
        let mut s = String::from("n=");
        push_decimal(&mut s, n);
        assert_eq!(s, format!("n={}", n));
    }
}

#[test]
fn padded_decimal_digits_of_numbers() {
    for (n, width, expected) in [
        (0u32, 0usize, "0"),
        (0, 1, "0"),
        (0, 3, "000"),
        (7, 2, "07"),
        (42, 2, "42"),
        (42, 5, "00042"),
        (123, 2, "123"),
        (u32::MAX, 12, "004294967295"),
    ] {
        let mut s = String::new();
        push_padded_decimal(&mut s, n, width);
        assert_eq!(s, expected);
    }
}

#[test]
fn signed_decimal_digits_of_numbers() {
    for n in [0i32, 1, -1, 2024, -2024, i32::MAX, i32::MIN] {
        let mut s = String::from("<");
        push_signed_decimal(&mut s, n);
        assert_eq!(s, format!("<{}", n));
    }
}

fn assert_stamp_form(stamp: &str) {
    assert_eq!(stamp.len(), 19, "{}", stamp);
    for (i, b) in stamp.bytes().enumerate() {
        match i {
            4 | 7 | 13 | 16 => assert_eq!(b, b'-'),
            10 => assert_eq!(b, b'_'),
            _ => assert!(b.is_ascii_digit()),
        }
    }
}

#[test]
fn stamp_of_a_given_time() {
    assert_eq!(stamp_text(&at(2024, 1, 2, 3, 4, 5, 0)), "2024-01-02_03-04-05");
    assert_eq!(stamp_text(&at(2024, 1, 2, 3, 4, 5, 999)), "2024-01-02_03-04-05");
    assert_eq!(stamp_text(&at(1999, 12, 31, 23, 59, 59, 1500)), "1999-12-31_23-59-59");
    assert_eq!(stamp_text(&at(1000, 10, 10, 10, 10, 10, 0)), "1000-10-10_10-10-10");
    assert_eq!(stamp_text(&at(9999, 9, 9, 9, 9, 9, 0)), "9999-09-09_09-09-09");
    assert_eq!(stamp_text(&at(7, 1, 1, 0, 0, 0, 0)), "0007-01-01_00-00-00");
    assert_eq!(stamp_text(&at(0, 1, 1, 0, 0, 0, 0)), "0000-01-01_00-00-00");
    assert_eq!(stamp_text(&at(12345, 6, 7, 8, 9, 10, 0)), "+12345-06-07_08-09-10");
    assert_eq!(stamp_text(&at(-44, 3, 15, 12, 0, 0, 0)), "-0044-03-15_12-00-00");
    assert_eq!(stamp_text(&at(-12345, 3, 15, 12, 0, 0, 0)), "-12345-03-15_12-00-00");
}

#[test]
fn stamp_is_what_the_calendar_library_writes() {
    for (y, mo, d, h, mi, s) in [
        (2024, 2, 29, 13, 37, 42),
        (1970, 1, 1, 0, 0, 0),
        (2038, 1, 19, 3, 14, 7),
        (999, 12, 31, 23, 59, 59),
        (1, 1, 1, 1, 1, 1),
        (0, 6, 15, 12, 30, 45),
        (9999, 12, 31, 23, 59, 59),
        (10000, 1, 1, 0, 0, 0),
        (262142, 12, 31, 23, 59, 59),
        (-1, 12, 31, 23, 59, 59),
        (-9999, 1, 1, 0, 0, 0),
        (-262143, 1, 1, 0, 0, 0),
    ] {
        let written = chrono::NaiveDate::from_ymd_opt(y, mo, d)
            .unwrap()
            .and_hms_opt(h, mi, s)
            .unwrap()
            .format("%Y-%m-%d_%H-%M-%S")
            .to_string();
        assert_eq!(stamp_text(&at(y, mo, d, h, mi, s, 0)), written);
    }
}

#[test]
fn stamps_of_one_second_are_equal_and_later_ones_sort_behind() {
    let a = stamp_text(&at(2024, 3, 7, 9, 5, 2, 10));
    let b = stamp_text(&at(2024, 3, 7, 9, 5, 2, 990));
    assert_eq!(a, b);
    let moments = [
        at(1999, 12, 31, 23, 59, 59, 0),
        at(2000, 1, 1, 0, 0, 0, 0),
        at(2000, 1, 1, 0, 0, 1, 0),
        at(2000, 1, 1, 0, 1, 0, 0),
        at(2000, 1, 1, 1, 0, 0, 0),
        at(2000, 1, 2, 0, 0, 0, 0),
        at(2000, 2, 1, 0, 0, 0, 0),
        at(2000, 10, 1, 0, 0, 0, 0),
        at(2001, 1, 1, 0, 0, 0, 0),
        at(9999, 12, 31, 23, 59, 59, 0),
    ];
    for pair in moments.windows(2) {
        assert!(stamp_text(&pair[0]) < stamp_text(&pair[1]));
    }
}

#[test]
fn current_stamp_has_the_form_of_a_stamp() {
    let before = chrono::Utc::now().format("%Y-%m-%d_%H-%M-%S").to_string();
    let stamp = get_timestamp();
    let after = chrono::Utc::now().format("%Y-%m-%d_%H-%M-%S").to_string();
    assert_stamp_form(&stamp);
    assert!(before <= stamp && stamp <= after, "{} {} {}", before, stamp, after);
}
