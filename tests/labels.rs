use baby_growth::age::{calculate_age_group, label_for_dates, CivilDate};
use baby_growth::classify::{classify, FileType};
use baby_growth::scan::{resolve_timestamp, FileTime};
use baby_growth::text::{push_decimal, push_hex};

const NOON_2023_01_15: i64 = 1673784000;
const NOON_2023_02_14: i64 = 1676376000;
const NOON_2023_02_15: i64 = 1676462400;
const NOON_2024_01_14: i64 = 1705233600;
const NOON_2024_01_15: i64 = 1705320000;
const NOON_2024_06_15: i64 = 1718452800;
const NOON_2023_03_01: i64 = 1677672000;
const NOON_2023_01_14: i64 = 1673697600;

#[test]
fn classify_image_extensions() {
    for name in ["a.jpg", "a.jpeg", "a.png", "a.gif", "a.bmp", "a.webp", "a.heic"] {
        assert_eq!(classify(name), Some(FileType::Image), "{}", name);
    }
}

#[test]
fn classify_video_extensions() {
    for name in ["a.mp4", "a.mov", "a.avi", "a.mkv", "a.wmv", "a.flv", "a.webm"] {
        assert_eq!(classify(name), Some(FileType::Video), "{}", name);
    }
}

#[test]
fn classify_ignores_case() {
    assert_eq!(classify("IMG_0001.JPG"), Some(FileType::Image));
    assert_eq!(classify("clip.MoV"), Some(FileType::Video));
    assert_eq!(classify("x.HeIc"), Some(FileType::Image));
}

#[test]
fn classify_rejects_other_files() {
    assert_eq!(classify("notes.txt"), None);
    assert_eq!(classify("README"), None);
    assert_eq!(classify(".jpg"), None);
    assert_eq!(classify("photo."), None);
    assert_eq!(classify("photo.jpgx"), None);
    assert_eq!(classify(""), None);
}

#[test]
fn classify_uses_last_extension() {
    assert_eq!(classify("archive.jpg.webm"), Some(FileType::Video));
    assert_eq!(classify("clip.mp4.txt"), None);
    assert_eq!(classify("..png"), Some(FileType::Image));
}

#[test]
fn file_type_names() {
    assert_eq!(FileType::Image.as_str(), "image");
    assert_eq!(FileType::Video.as_str(), "video");
}

#[test]
fn age_on_birth_day_is_zero_months() {
    assert_eq!(calculate_age_group("2023-01-15", NOON_2023_01_15), "0 months");
}

#[test]
fn age_day_before_month_boundary() {
    assert_eq!(calculate_age_group("2023-01-15", NOON_2023_02_14), "0 months");
}

#[test]
fn age_one_month() {
    assert_eq!(calculate_age_group("2023-01-15", NOON_2023_02_15), "1 months");
}

#[test]
fn age_eleven_months() {
    assert_eq!(calculate_age_group("2023-01-15", NOON_2024_01_14), "11 months");
}

#[test]
fn age_one_year() {
    assert_eq!(calculate_age_group("2023-01-15", NOON_2024_01_15), "1 years");
}

#[test]
fn age_years_and_months() {
    assert_eq!(calculate_age_group("2023-01-15", NOON_2024_06_15), "1 years 5 months");
}

#[test]
fn age_end_of_month_birth() {
    assert_eq!(calculate_age_group("2023-01-31", NOON_2023_03_01), "1 months");
}

#[test]
fn age_before_birth() {
    assert_eq!(calculate_age_group("2023-01-15", NOON_2023_01_14), "before birth");
    assert_eq!(calculate_age_group("2030-01-01", 0), "before birth");
}

#[test]
fn age_malformed_birth_date() {
    assert_eq!(calculate_age_group("not-a-date", NOON_2023_01_15), "unknown");
    assert_eq!(calculate_age_group("2023-02-30", NOON_2023_01_15), "unknown");
    assert_eq!(calculate_age_group("", NOON_2023_01_15), "unknown");
}

#[test]
fn age_timestamp_out_of_range() {
    assert_eq!(calculate_age_group("2023-01-15", i64::MAX), "unknown");
    assert_eq!(calculate_age_group("2023-01-15", i64::MIN), "unknown");
}

#[test]
fn age_at_epoch() {
    assert_eq!(calculate_age_group("1970-01-01", 0), "0 months");
    assert_eq!(calculate_age_group("1969-01-01", 0), "1 years");
}

#[test]
fn age_is_deterministic() {
    let a = calculate_age_group("2023-01-15", NOON_2024_06_15);
    let b = calculate_age_group("2023-01-15", NOON_2024_06_15);
    assert_eq!(a, b);
}

#[test]
fn label_from_dates() {
    let birth = CivilDate { year: 2020, month: 2, day: 29 };
    let day = CivilDate { year: 2023, month: 2, day: 28 };
    assert_eq!(label_for_dates(birth, day), "2 years 11 months");
    let day = CivilDate { year: 2023, month: 3, day: 1 };
    assert_eq!(label_for_dates(birth, day), "3 years");
}

#[test]
fn decimal_text() {
    let mut s = String::from("n=");
    push_decimal(&mut s, 0);
    assert_eq!(s, "n=0");
    let mut s = String::new();
    push_decimal(&mut s, 1234567890);
    assert_eq!(s, "1234567890");
    let mut s = String::new();
    push_decimal(&mut s, u64::MAX);
    assert_eq!(s, "18446744073709551615");
}

#[test]
fn hex_text() {
    let mut s = String::new();
    push_hex(&mut s, &vec![0x00, 0x0f, 0xa5, 0xff]);
    assert_eq!(s, "000fa5ff");
}

#[test]
fn timestamp_prefers_creation_time() {
    assert_eq!(resolve_timestamp(Some(FileTime::Since(10)), Some(FileTime::Since(20))), Some(10));
    assert_eq!(resolve_timestamp(None, Some(FileTime::Since(20))), Some(20));
    assert_eq!(resolve_timestamp(None, None), None);
}

#[test]
fn timestamp_before_epoch_or_too_large() {
    assert_eq!(resolve_timestamp(Some(FileTime::BeforeEpoch), Some(FileTime::Since(20))), None);
    assert_eq!(resolve_timestamp(Some(FileTime::Since(u64::MAX)), None), None);
}
