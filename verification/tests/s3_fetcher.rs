use compiler_cache::fetcher::FetchError;
use compiler_cache::hash::H256;
use compiler_cache::refreshable_versions::{RefreshOutcome, Refreshed, RefreshableVersions};
use compiler_cache::s3_fetcher::{
    fetch_file as fetched_file, last_segment, plan_fetch, status_code_error,
    versions_from_prefixes, ObjectKeys,
};
use compiler_cache::version::Version;
use compiler_cache::version_set::VersionSet;
use sha2::{Digest, Sha256};

fn set_of(versions: &[Version]) -> VersionSet {
    let mut set = VersionSet::new();
    for version in versions {
        set.insert(*version);
    }
    set
}

fn all_versions() -> Vec<Version> {
    ["v0.4.10+commit.f0d539ae", "v0.8.13+commit.abaa5c0e", "v0.5.1+commit.c8a2cb62"]
        .into_iter()
        .map(Version::from_str)
        .map(|x| x.unwrap())
        .collect()
}

#[test]
fn fetch_file() {
    let expected_file = "this is 100% a valid compiler trust me";
    let expected_hash = Sha256::digest(expected_file);

    let version = Version::from_str("v0.4.10+commit.f0d539ae").unwrap();
    let listed = set_of(&[version]);

    let keys = plan_fetch(&listed, &version).unwrap();
    assert_eq!(keys.data, "v0.4.10+commit.f0d539ae/solc");
    assert_eq!(keys.hash, "v0.4.10+commit.f0d539ae/sha256.hash");

    let (compiler, hash) = fetched_file(
        Ok(Ok((expected_file.as_bytes().to_vec(), 200))),
        Ok(Ok((expected_hash.to_vec(), 200))),
    )
    .unwrap();
    assert_eq!(expected_file.as_bytes(), compiler);
    assert_eq!(expected_hash.as_slice(), hash.as_bytes());
}

#[test]
fn list() {
    let expected_versions = all_versions();
    let prefixes: Vec<String> = expected_versions.iter().map(|x| x.to_string()).collect();
    let versions = versions_from_prefixes(&prefixes);
    let expected_versions = set_of(&expected_versions);
    assert!(expected_versions.equals(&versions));
    assert_eq!(versions.len(), 3);
}

#[test]
fn refresh_list() {
    let all_versions = all_versions();
    let list = |names: Vec<String>| -> Result<VersionSet, String> {
        Ok(versions_from_prefixes(&names))
    };

    let mut versions = RefreshableVersions::new(list(vec![]).unwrap());
    assert!(versions.read().is_empty());

    {
        let expected_versions = &all_versions[0..2];
        let listed = list(expected_versions.iter().map(|x| x.to_string()).collect());
        let outcome = versions.take_in(listed);
        assert!(matches!(
            outcome,
            RefreshOutcome::Applied(Refreshed::Replaced { old_len: 0, new_len: 2 })
        ));
        let expected_versions = set_of(expected_versions);
        assert!(expected_versions.equals(versions.read()));
    }

    {
        let expected_versions = &all_versions[1..3];
        let listed = list(
            expected_versions
                .iter()
                .map(|x| x.to_string())
                .chain(std::iter::once("some_garbage".into()))
                .collect(),
        );
        let outcome = versions.take_in(listed);
        assert!(matches!(
            outcome,
            RefreshOutcome::Applied(Refreshed::Replaced { old_len: 2, new_len: 2 })
        ));
        let expected_versions = set_of(expected_versions);
        assert!(expected_versions.equals(versions.read()));
    }
}

#[test]
fn a_listing_with_slashes_and_garbage() {
    let prefixes: Vec<String> = [
        "v0.4.10+commit.f0d539ae/",
        "v0.8.13+commit.abaa5c0e/",
        "v0.5.1+commit.c8a2cb62/",
        "garbage/",
    ]
    .iter()
    .map(|x| x.to_string())
    .collect();
    let versions = versions_from_prefixes(&prefixes);
    assert_eq!(versions.len(), 3);
    for version in all_versions() {
        assert!(versions.contains(&version));
    }
    assert!(versions.equals(&set_of(&all_versions())));
}

#[test]
fn a_listing_names_each_version_once() {
    let prefixes: Vec<String> = [
        "v0.4.10+commit.f0d539ae/",
        "v0.4.10+commit.f0d539ae",
        "releases/v0.4.10+commit.f0d539ae/",
        "v0.4.10+commit.f0d539ae//",
        "/",
        "",
    ]
    .iter()
    .map(|x| x.to_string())
    .collect();
    let versions = versions_from_prefixes(&prefixes);
    assert_eq!(versions.len(), 1);
    assert_eq!(versions.to_vec(), vec![Version::from_str("v0.4.10+commit.f0d539ae").unwrap()]);
    assert!(versions_from_prefixes(&vec![]).is_empty());
}

#[test]
fn takes_the_last_segment_of_a_prefix() {
    assert_eq!(last_segment("v0.4.10+commit.f0d539ae/"), "v0.4.10+commit.f0d539ae");
    assert_eq!(last_segment("v0.4.10+commit.f0d539ae"), "v0.4.10+commit.f0d539ae");
    assert_eq!(last_segment("a/b/c/"), "c");
    assert_eq!(last_segment("a/b/c"), "c");
    assert_eq!(last_segment("a//"), "");
    assert_eq!(last_segment("/"), "");
    assert_eq!(last_segment(""), "");
    assert_eq!(last_segment("d\u{e9}p\u{f4}t/\u{e9}t\u{e9}/"), "\u{e9}t\u{e9}");
}

#[test]
fn a_version_that_is_not_listed_is_not_found() {
    let versions = all_versions();
    let listed = set_of(&versions[0..2]);
    assert_eq!(plan_fetch(&listed, &versions[2]), Err(FetchError::NotFound(versions[2])));
    assert_eq!(
        plan_fetch(&listed, &versions[1]),
        Ok(ObjectKeys {
            data: "v0.8.13+commit.abaa5c0e/solc".to_string(),
            hash: "v0.8.13+commit.abaa5c0e/sha256.hash".to_string(),
        })
    );
    assert_eq!(plan_fetch(&VersionSet::new(), &versions[0]), Err(FetchError::NotFound(versions[0])));
}

#[test]
fn names_the_status_in_the_error() {
    assert_eq!(
        status_code_error("hash data", 404),
        FetchError::Fetch("s3 returned non 200 status code while fetching hash data: 404".to_string())
    );
    assert_eq!(
        status_code_error("executable file", 0),
        FetchError::Fetch(
            "s3 returned non 200 status code while fetching executable file: 0".to_string()
        )
    );
    assert_eq!(
        status_code_error("", 65535),
        FetchError::Fetch("s3 returned non 200 status code while fetching : 65535".to_string())
    );
}

#[test]
fn what_went_wrong_with_the_digest_is_reported_first() {
    let body = || -> Vec<u8> { b"binary".to_vec() };
    let digest = || -> Vec<u8> { vec![7u8; 32] };
    let lost = || FetchError::Fetch("connection lost".to_string());

    assert_eq!(
        fetched_file(Err("data task died".to_string()), Err("hash task died".to_string())),
        Err(FetchError::Schedule("hash task died".to_string()))
    );
    assert_eq!(
        fetched_file(Err("data task died".to_string()), Ok(Err(lost()))),
        Err(lost())
    );
    assert_eq!(
        fetched_file(Ok(Ok((body(), 500))), Ok(Ok((digest(), 403)))),
        Err(status_code_error("hash data", 403))
    );
    assert_eq!(
        fetched_file(Err("data task died".to_string()), Ok(Ok((digest(), 200)))),
        Err(FetchError::Schedule("data task died".to_string()))
    );
    assert_eq!(fetched_file(Ok(Err(lost())), Ok(Ok((digest(), 200)))), Err(lost()));
    assert_eq!(
        fetched_file(Ok(Ok((body(), 404))), Ok(Ok((digest(), 200)))),
        Err(status_code_error("executable file", 404))
    );
    assert_eq!(
        fetched_file(Ok(Ok((body(), 200))), Ok(Ok((vec![7u8; 31], 200)))),
        Err(FetchError::Fetch("s3 returned a hash that is not 32 bytes long".to_string()))
    );
    assert_eq!(
        fetched_file(Ok(Ok((body(), 200))), Ok(Ok((digest(), 200)))),
        Ok((body(), H256([7u8; 32])))
    );
}

#[test]
fn sets_hold_each_version_once() {
    let versions = all_versions();
    let mut set = VersionSet::new();
    assert!(set.is_empty());
    assert!(set.insert(versions[0]));
    assert!(!set.insert(versions[0]));
    assert!(set.insert(versions[1]));
    assert_eq!(set.len(), 2);
    assert!(set.contains(&versions[0]));
    assert!(!set.contains(&versions[2]));
    assert!(!set.is_empty());
    assert!(set.equals(&set_of(&[versions[1], versions[0]])));
    assert!(!set.equals(&set_of(&[versions[1], versions[2]])));
    assert!(!set.equals(&set_of(&versions)));
    assert!(!set.equals(&VersionSet::new()));
    let mut listed = set.to_vec();
    listed.sort_by(|a, b| a.compare(b));
    assert_eq!(listed, vec![versions[0], versions[1]]);
}
