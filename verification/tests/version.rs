use compiler_cache::version::{Date, NightlyVersion, ParseError, ReleaseVersion, SemVer, Version};
use std::cmp::Ordering;

fn release(major: u64, minor: u64, patch: u64, commit: [u8; 4]) -> Version {
    Version::Release(ReleaseVersion { version: SemVer::new(major, minor, patch), commit })
}

fn nightly(major: u64, minor: u64, patch: u64, date: (u16, u8, u8), commit: [u8; 4]) -> Version {
    Version::Nightly(NightlyVersion {
        version: SemVer::new(major, minor, patch),
        date: Date { year: date.0, month: date.1, day: date.2 },
        commit,
    })
}

#[test]
fn parses_a_release() {
    let parsed = Version::from_str("v0.4.10+commit.f0d539ae").unwrap();
    assert_eq!(parsed, release(0, 4, 10, [0xf0, 0xd5, 0x39, 0xae]));
}

#[test]
fn parses_a_nightly_build() {
    let parsed = Version::from_str("v0.8.14-nightly.2022.4.13+commit.25923c1f").unwrap();
    assert_eq!(parsed, nightly(0, 8, 14, (2022, 4, 13), [0x25, 0x92, 0x3c, 0x1f]));
}

#[test]
fn writes_a_release() {
    let version = release(0, 8, 13, [0xab, 0xaa, 0x5c, 0x0e]);
    assert_eq!(version.to_string(), "v0.8.13+commit.abaa5c0e");
}

#[test]
fn writes_a_nightly_build() {
    let version = nightly(0, 5, 1, (2018, 11, 9), [0x00, 0x01, 0x0a, 0xff]);
    assert_eq!(version.to_string(), "v0.5.1-nightly.2018.11.9+commit.00010aff");
}

#[test]
fn writes_a_year_in_four_digits() {
    let version = nightly(1, 2, 3, (987, 1, 2), [1, 2, 3, 4]);
    assert_eq!(version.to_string(), "v1.2.3-nightly.0987.1.2+commit.01020304");
    assert_eq!(Version::from_str("v1.2.3-nightly.0987.1.2+commit.01020304"), Ok(version));
}

#[test]
fn writes_the_largest_numbers() {
    let version = release(u64::MAX, 0, u64::MAX, [0xff, 0xff, 0xff, 0xff]);
    let text = "v18446744073709551615.0.18446744073709551615+commit.ffffffff";
    assert_eq!(version.to_string(), text);
    assert_eq!(Version::from_str(text), Ok(version));
}

#[test]
fn reading_what_was_written_gives_the_version_back() {
    let versions = vec![
        release(0, 0, 0, [0, 0, 0, 0]),
        release(0, 4, 10, [0xf0, 0xd5, 0x39, 0xae]),
        release(10, 20, 30, [0xde, 0xad, 0xbe, 0xef]),
        nightly(0, 8, 14, (2022, 4, 13), [0x25, 0x92, 0x3c, 0x1f]),
        nightly(0, 8, 14, (2020, 2, 29), [0x25, 0x92, 0x3c, 0x1f]),
        nightly(0, 8, 14, (9999, 12, 31), [0, 0, 0, 1]),
        nightly(0, 8, 14, (0, 1, 1), [0, 0, 0, 1]),
    ];
    for version in versions {
        assert_eq!(Version::from_str(&version.to_string()), Ok(version));
    }
}

#[test]
fn writing_what_was_read_gives_the_text_back() {
    let texts = [
        "v0.4.10+commit.f0d539ae",
        "v0.8.13+commit.abaa5c0e",
        "v0.5.1+commit.c8a2cb62",
        "v0.8.14-nightly.2022.4.13+commit.25923c1f",
        "v0.4.16-nightly.2017.8.11+commit.c84de7fa",
    ];
    for text in texts {
        assert_eq!(Version::from_str(text).unwrap().to_string(), text);
    }
}

#[test]
fn refuses_what_is_not_canonical() {
    let texts = [
        "",
        "v",
        "garbage",
        "some_garbage",
        "0.4.10+commit.f0d539ae",
        "V0.4.10+commit.f0d539ae",
        "v0.4.10+commit.f0d539ae ",
        " v0.4.10+commit.f0d539ae",
        "v0.4.10+commit.f0d539ae/",
        "v0.4.10+commit.f0d539aee",
        "v0.4.10+commit.f0d539a",
        "v0.4.10+commit.F0D539AE",
        "v0.4.10+commit.g0d539ae",
        "v0.4.10-commit.f0d539ae",
        "v0.4.10+Commit.f0d539ae",
        "v0.4.10+commit:f0d539ae",
        "v0,4,10+commit.f0d539ae",
        "v0.4+commit.f0d539ae",
        "v0.4.10.1+commit.f0d539ae",
        "v00.4.10+commit.f0d539ae",
        "v0.04.10+commit.f0d539ae",
        "v0.4.010+commit.f0d539ae",
        "v-1.4.10+commit.f0d539ae",
        "v0.4.10",
        "v0.4.10+commit.",
        "v18446744073709551616.0.0+commit.f0d539ae",
        "v0.4.10+commit.f0d539\u{e9}e",
        "v0.8.14-nightly.2022.4.13",
        "v0.8.14-nightly.2022.04.13+commit.25923c1f",
        "v0.8.14-nightly.2022.4.03+commit.25923c1f",
        "v0.8.14-nightly.22.4.13+commit.25923c1f",
        "v0.8.14-nightly.02022.4.13+commit.25923c1f",
        "v0.8.14-nightly.2022.13.13+commit.25923c1f",
        "v0.8.14-nightly.2022.0.13+commit.25923c1f",
        "v0.8.14-nightly.2022.4.0+commit.25923c1f",
        "v0.8.14-nightly.2022.4.31+commit.25923c1f",
        "v0.8.14-nightly.2022.2.29+commit.25923c1f",
        "v0.8.14-nightly.1900.2.29+commit.25923c1f",
        "v0.8.14-nightly.2022-4-13+commit.25923c1f",
        "v0.8.14-nightly.2022.4.13+commit.25923c1f.",
        "v0.8.14-Nightly.2022.4.13+commit.25923c1f",
    ];
    for text in texts {
        assert_eq!(Version::from_str(text), Err(ParseError {}), "{}", text);
    }
}

#[test]
fn reads_the_last_day_of_february_in_leap_years() {
    assert!(Version::from_str("v0.1.0-nightly.2000.2.29+commit.00000000").is_ok());
    assert!(Version::from_str("v0.1.0-nightly.2024.2.29+commit.00000000").is_ok());
    assert!(Version::from_str("v0.1.0-nightly.2100.2.29+commit.00000000").is_err());
    assert!(Version::from_str("v0.1.0-nightly.2023.2.28+commit.00000000").is_ok());
}

#[test]
fn knows_which_dates_exist() {
    assert!(Date { year: 2022, month: 4, day: 30 }.is_valid());
    assert!(!Date { year: 2022, month: 4, day: 31 }.is_valid());
    assert!(Date { year: 2022, month: 12, day: 31 }.is_valid());
    assert!(!Date { year: 2022, month: 13, day: 1 }.is_valid());
    assert!(!Date { year: 2022, month: 0, day: 1 }.is_valid());
    assert!(!Date { year: 2022, month: 1, day: 0 }.is_valid());
    assert!(!Date { year: 10000, month: 1, day: 1 }.is_valid());
    assert!(Date { year: 2000, month: 2, day: 29 }.is_valid());
    assert!(!Date { year: 1900, month: 2, day: 29 }.is_valid());
    assert!(nightly(0, 1, 0, (2022, 4, 13), [0; 4]).is_valid());
    assert!(!nightly(0, 1, 0, (2022, 4, 31), [0; 4]).is_valid());
    assert!(release(0, 1, 0, [0; 4]).is_valid());
}

#[test]
fn gives_its_parts() {
    let r = release(0, 4, 10, [0xf0, 0xd5, 0x39, 0xae]);
    let n = nightly(0, 8, 14, (2022, 4, 13), [0x25, 0x92, 0x3c, 0x1f]);
    assert_eq!(r.version(), SemVer { major: 0, minor: 4, patch: 10 });
    assert_eq!(r.date(), None);
    assert_eq!(r.commit(), [0xf0, 0xd5, 0x39, 0xae]);
    assert_eq!(n.version(), SemVer::new(0, 8, 14));
    assert_eq!(n.date(), Some(Date { year: 2022, month: 4, day: 13 }));
    assert_eq!(n.commit(), [0x25, 0x92, 0x3c, 0x1f]);
    assert_eq!(r.key(), [0, 4, 10, 1, 0, 0, 0, 0xf0, 0xd5, 0x39, 0xae]);
    assert_eq!(n.key(), [0, 8, 14, 0, 2022, 4, 13, 0x25, 0x92, 0x3c, 0x1f]);
}

#[test]
fn orders_by_semantic_version_first() {
    let a = release(0, 4, 10, [0xff; 4]);
    let b = release(0, 5, 1, [0; 4]);
    let c = release(0, 8, 13, [0; 4]);
    let d = release(1, 0, 0, [0; 4]);
    assert_eq!(a.compare(&b), Ordering::Less);
    assert_eq!(b.compare(&c), Ordering::Less);
    assert_eq!(a.compare(&c), Ordering::Less);
    assert_eq!(c.compare(&d), Ordering::Less);
    assert_eq!(d.compare(&a), Ordering::Greater);
    assert_eq!(release(0, 4, 10, [0; 4]).compare(&release(0, 4, 9, [9; 4])), Ordering::Greater);
    let late_nightly = nightly(0, 4, 9, (2030, 1, 1), [9; 4]);
    assert_eq!(late_nightly.compare(&release(0, 4, 10, [0; 4])), Ordering::Less);
}

#[test]
fn orders_a_release_above_the_nightly_builds_of_its_version() {
    let r = release(0, 8, 14, [0; 4]);
    let n = nightly(0, 8, 14, (2022, 4, 13), [0xff; 4]);
    assert_eq!(r.compare(&n), Ordering::Greater);
    assert_eq!(n.compare(&r), Ordering::Less);
}

#[test]
fn orders_nightly_builds_by_date_then_commit() {
    let a = nightly(0, 8, 14, (2022, 4, 13), [0xff; 4]);
    let b = nightly(0, 8, 14, (2022, 4, 14), [0; 4]);
    let c = nightly(0, 8, 14, (2022, 5, 1), [0; 4]);
    let d = nightly(0, 8, 14, (2023, 1, 1), [0; 4]);
    let e = nightly(0, 8, 14, (2023, 1, 1), [0, 0, 1, 0]);
    assert_eq!(a.compare(&b), Ordering::Less);
    assert_eq!(b.compare(&c), Ordering::Less);
    assert_eq!(c.compare(&d), Ordering::Less);
    assert_eq!(d.compare(&e), Ordering::Less);
    assert_eq!(e.compare(&d), Ordering::Greater);
    assert_eq!(e.compare(&e), Ordering::Equal);
}

#[test]
fn orders_by_commit_last() {
    let a = release(0, 4, 10, [0, 0, 0, 1]);
    let b = release(0, 4, 10, [0, 0, 1, 0]);
    let c = release(0, 4, 10, [1, 0, 0, 0]);
    assert_eq!(a.compare(&b), Ordering::Less);
    assert_eq!(b.compare(&c), Ordering::Less);
    assert_eq!(c.compare(&a), Ordering::Greater);
    assert_eq!(a.compare(&a), Ordering::Equal);
}

#[test]
fn equal_versions_are_equal() {
    let a = release(0, 4, 10, [0xf0, 0xd5, 0x39, 0xae]);
    let b = Version::from_str("v0.4.10+commit.f0d539ae").unwrap();
    assert!(a == b);
    assert!(a != release(0, 4, 10, [0xf0, 0xd5, 0x39, 0xaf]));
    assert!(a != nightly(0, 4, 10, (2022, 1, 1), [0xf0, 0xd5, 0x39, 0xae]));
    let n = nightly(0, 4, 10, (2022, 1, 1), [0xf0, 0xd5, 0x39, 0xae]);
    assert!(n == n.clone());
    assert!(n != nightly(0, 4, 10, (2022, 1, 2), [0xf0, 0xd5, 0x39, 0xae]));
}

#[test]
fn versions_are_compared_with_operators() {
    let a = release(0, 4, 10, [0xf0, 0xd5, 0x39, 0xae]);
    let b = release(0, 8, 13, [0xab, 0xaa, 0x5c, 0x0e]);
    let n = nightly(0, 8, 13, (2022, 3, 1), [0xab, 0xaa, 0x5c, 0x0e]);
    assert!(a < b);
    assert!(b > a);
    assert!(n < b);
    assert!(a < n);
    assert!(a <= a && a >= a);
    assert!(!(b < n));
    assert_eq!(a.partial_cmp(&b), Some(Ordering::Less));
    let mut listed = vec![b, n, a];
    listed.sort_by(|x, y| x.compare(y));
    assert_eq!(listed, vec![a, n, b]);
}
