use compiler_cache::download_cache::DownloadCache;
use compiler_cache::fetcher::{FetchError, Fetcher, IoFailure, IoKind};
use compiler_cache::flight::{Claim, SingleFlight};
use compiler_cache::hash::{digest_of, H256};
use compiler_cache::reconcile::{LocalCompiler, Reconciled};
use compiler_cache::version::{ReleaseVersion, SemVer, Version};
use std::cell::RefCell;
use std::collections::HashMap;

fn new_version(major: u64) -> Version {
    Version::Release(ReleaseVersion { version: SemVer::new(major, 0, 0), commit: [0, 1, 2, 3] })
}

struct MockFetcher {
    counter: RefCell<HashMap<Version, u32>>,
}

impl MockFetcher {
    fn new() -> Self {
        MockFetcher { counter: RefCell::new(HashMap::new()) }
    }

    fn count(&self, ver: &Version) -> u32 {
        self.counter.borrow().get(ver).copied().unwrap_or(0)
    }
}

impl Fetcher for MockFetcher {
    fn fetch(&self, ver: &Version) -> Result<String, FetchError> {
        *self.counter.borrow_mut().entry(ver.clone()).or_default() += 1;
        Ok(ver.to_string())
    }

    fn all_versions(&self) -> Vec<Version> {
        vec![]
    }

    fn folder(&self) -> String {
        unreachable!()
    }
}

/// Tests, that caching works, meaning that cache downloads each version only once
#[test]
fn value_is_cached() {
    let fetcher = MockFetcher::new();
    let mut cache = DownloadCache::new();

    let vers: Vec<_> = (0..3).map(new_version).collect();

    let mut get_and_check = |ver: &Version| {
        let value = cache.get(&fetcher, ver).unwrap();
        assert_eq!(value, ver.to_string());
    };

    get_and_check(&vers[0]);
    get_and_check(&vers[1]);
    get_and_check(&vers[0]);
    get_and_check(&vers[0]);
    get_and_check(&vers[1]);
    get_and_check(&vers[1]);
    get_and_check(&vers[2]);
    get_and_check(&vers[2]);
    get_and_check(&vers[1]);
    get_and_check(&vers[0]);

    let counter = fetcher.counter.borrow();
    assert_eq!(counter.len(), 3);
    assert!(counter.values().all(|&count| count == 1));
}

/// Tests, that cache will not block requests for already downloaded values,
/// while it downloads others
#[test]
fn downloading_not_blocks() {
    let mut flights = SingleFlight::new();
    let vers: Vec<_> = (0..3).map(new_version).collect();

    // fill the cache
    assert_eq!(flights.begin(&vers[1]), Claim::Fetch);
    flights.complete(&vers[1], Ok(vers[1].to_string())).unwrap();

    // two downloads start and do not end
    assert_eq!(flights.begin(&vers[0]), Claim::Fetch);
    assert_eq!(flights.begin(&vers[2]), Claim::Fetch);

    // while they are under way the cache answers for what it has
    assert_eq!(flights.begin(&vers[1]), Claim::Hit(vers[1].to_string()));
    assert_eq!(flights.try_get(&vers[1]), Some(vers[1].to_string()));

    // and whoever asks for what is being downloaded is told to wait
    assert_eq!(flights.begin(&vers[0]), Claim::Wait);
    assert_eq!(flights.begin(&vers[2]), Claim::Wait);
    assert_eq!(flights.try_get(&vers[0]), None);
    assert!(flights.is_in_flight(&vers[0]));
    assert!(flights.is_in_flight(&vers[2]));
    assert!(!flights.is_in_flight(&vers[1]));

    // now the downloads end
    let first = flights.complete(&vers[0], Ok(vers[0].to_string()));
    let second = flights.complete(&vers[2], Ok(vers[2].to_string()));
    assert_eq!(first, Ok(vers[0].to_string()));
    assert_eq!(second, Ok(vers[2].to_string()));
    assert_eq!(flights.begin(&vers[0]), Claim::Hit(vers[0].to_string()));
    assert_eq!(flights.begin(&vers[2]), Claim::Hit(vers[2].to_string()));
    assert!(!flights.is_in_flight(&vers[0]));
}

#[test]
fn a_new_cache_is_empty() {
    let cache = DownloadCache::new();
    assert_eq!(cache.len(), 0);
    assert_eq!(cache.try_get(&new_version(0)), None);
}

#[test]
fn what_is_recorded_is_never_replaced() {
    let mut cache = DownloadCache::new();
    let ver = new_version(7);
    assert!(cache.install(&ver, "first".to_string()));
    assert!(!cache.install(&ver, "second".to_string()));
    assert_eq!(cache.try_get(&ver), Some("first".to_string()));
    assert_eq!(cache.record(&ver, Ok("third".to_string())), Ok("first".to_string()));
    assert_eq!(cache.record(&ver, Err(FetchError::NotFound(ver))), Ok("first".to_string()));
    assert_eq!(cache.try_get(&ver), Some("first".to_string()));
    assert_eq!(cache.len(), 1);
}

struct FailingFetcher {
    calls: RefCell<u32>,
}

impl Fetcher for FailingFetcher {
    fn fetch(&self, ver: &Version) -> Result<String, FetchError> {
        *self.calls.borrow_mut() += 1;
        if *self.calls.borrow() == 1 {
            Err(FetchError::Fetch("network is down".to_string()))
        } else {
            Ok(ver.to_string())
        }
    }

    fn all_versions(&self) -> Vec<Version> {
        vec![]
    }

    fn folder(&self) -> String {
        String::new()
    }
}

#[test]
fn a_failed_fetch_records_nothing_and_can_be_tried_again() {
    let fetcher = FailingFetcher { calls: RefCell::new(0) };
    let mut cache = DownloadCache::new();
    let ver = new_version(1);
    assert_eq!(cache.get(&fetcher, &ver), Err(FetchError::Fetch("network is down".to_string())));
    assert_eq!(cache.try_get(&ver), None);
    assert_eq!(cache.len(), 0);
    assert_eq!(cache.get(&fetcher, &ver), Ok(ver.to_string()));
    assert_eq!(cache.get(&fetcher, &ver), Ok(ver.to_string()));
    assert_eq!(*fetcher.calls.borrow(), 2);
}

#[test]
fn record_hands_on_each_kind_of_error() {
    let ver = new_version(1);
    let errors = vec![
        FetchError::NotFound(ver),
        FetchError::Fetch("fetch".to_string()),
        FetchError::File(IoFailure { kind: IoKind::Other, message: "disk full".to_string() }),
        FetchError::Schedule("cancelled".to_string()),
    ];
    for error in errors {
        let mut cache = DownloadCache::new();
        assert_eq!(cache.record(&ver, Err(error.clone())), Err(error));
        assert_eq!(cache.len(), 0);
    }
}

#[test]
fn one_of_many_who_ask_is_told_to_fetch() {
    let mut flights = SingleFlight::new();
    let vers: Vec<_> = (0..3).map(new_version).collect();
    let order = [0usize, 1, 0, 0, 1, 1, 2, 2, 1, 0];
    let mut fetches = [0u32; 3];
    for i in order {
        match flights.begin(&vers[i]) {
            Claim::Fetch => fetches[i] += 1,
            Claim::Wait => {},
            Claim::Hit(_) => panic!("nothing is on disk yet"),
        }
    }
    assert_eq!(fetches, [1, 1, 1]);
    for ver in &vers {
        assert_eq!(flights.complete(ver, Ok(ver.to_string())), Ok(ver.to_string()));
    }
    for i in order {
        assert_eq!(flights.begin(&vers[i]), Claim::Hit(vers[i].to_string()));
    }
    assert_eq!(flights.cache().len(), 3);
}

#[test]
fn a_failed_or_abandoned_fetch_leaves_the_slot_empty() {
    let mut flights = SingleFlight::new();
    let ver = new_version(4);
    assert_eq!(flights.begin(&ver), Claim::Fetch);
    let error = FetchError::Fetch("timeout".to_string());
    assert_eq!(flights.complete(&ver, Err(error.clone())), Err(error));
    assert!(!flights.is_in_flight(&ver));
    assert_eq!(flights.try_get(&ver), None);
    assert_eq!(flights.begin(&ver), Claim::Fetch);
    assert_eq!(flights.begin(&ver), Claim::Wait);
    flights.abandon(&ver);
    assert!(!flights.is_in_flight(&ver));
    assert_eq!(flights.begin(&ver), Claim::Fetch);
    assert_eq!(flights.complete(&ver, Ok("path".to_string())), Ok("path".to_string()));
    assert_eq!(flights.complete(&ver, Ok("other".to_string())), Ok("path".to_string()));
    assert_eq!(flights.try_get(&ver), Some("path".to_string()));
}

#[test]
fn a_machine_starts_with_what_the_cache_records() {
    let mut cache = DownloadCache::new();
    let on_disk = new_version(1);
    let absent = new_version(2);
    cache.install(&on_disk, "compilers/v1/solc".to_string());
    let mut flights = SingleFlight::with_cache(cache);
    assert_eq!(flights.begin(&on_disk), Claim::Hit("compilers/v1/solc".to_string()));
    assert_eq!(flights.begin(&absent), Claim::Fetch);
    assert!(!flights.install(&on_disk, "elsewhere".to_string()));
    assert!(!flights.install(&absent, "elsewhere".to_string()));
    let third = new_version(3);
    assert!(flights.install(&third, "compilers/v3/solc".to_string()));
    assert_eq!(flights.try_get(&third), Some("compilers/v3/solc".to_string()));
}

struct ListedFetcher {
    hashes: HashMap<Version, H256>,
    fetched: RefCell<Vec<Version>>,
}

impl Fetcher for ListedFetcher {
    fn fetch(&self, ver: &Version) -> Result<String, FetchError> {
        self.fetched.borrow_mut().push(*ver);
        Ok(format!("fetched/{}", ver.to_string()))
    }

    fn all_versions(&self) -> Vec<Version> {
        self.hashes.keys().cloned().collect()
    }

    fn folder(&self) -> String {
        "compilers".to_string()
    }

    fn get_hash(&self, ver: &Version) -> Option<H256> {
        self.hashes.get(ver).cloned()
    }
}

fn folder_with(files: &[(&str, &[u8])]) -> HashMap<String, Vec<u8>> {
    files.iter().map(|(name, content)| (format!("compilers/{}/solc", name), content.to_vec())).collect()
}

#[test]
fn finds_the_compilers_in_a_folder() {
    let names = vec![
        "v0.4.10+commit.f0d539ae".to_string(),
        "garbage".to_string(),
        "v0.8.13+commit.abaa5c0e".to_string(),
        ".tmp".to_string(),
        "v0.8.14-nightly.2022.4.13+commit.25923c1f".to_string(),
    ];
    let found = DownloadCache::find_versions_in_dir("compilers/", &names);
    let expected: Vec<LocalCompiler> = [names[0].as_str(), names[2].as_str(), names[4].as_str()]
        .iter()
        .map(|name| LocalCompiler {
            version: Version::from_str(name).unwrap(),
            solc_path: format!("compilers/{}/solc", name),
        })
        .collect();
    assert_eq!(found, expected);
    assert_eq!(DownloadCache::find_versions_in_dir("compilers", &vec![]), vec![]);
}

#[test]
fn takes_over_what_has_the_announced_digest() {
    let v1 = Version::from_str("v0.4.10+commit.f0d539ae").unwrap();
    let v2 = Version::from_str("v0.8.13+commit.abaa5c0e").unwrap();
    let v3 = Version::from_str("v0.5.1+commit.c8a2cb62").unwrap();
    let files = folder_with(&[
        ("v0.4.10+commit.f0d539ae", b"first compiler"),
        ("v0.8.13+commit.abaa5c0e", b"second compiler, damaged"),
        ("v0.5.1+commit.c8a2cb62", b"third compiler"),
    ]);
    let fetcher = ListedFetcher {
        hashes: HashMap::from([
            (v1, digest_of(b"first compiler")),
            (v2, digest_of(b"second compiler")),
        ]),
        fetched: RefCell::new(vec![]),
    };
    let names = vec![
        "v0.4.10+commit.f0d539ae".to_string(),
        "v0.8.13+commit.abaa5c0e".to_string(),
        "v0.5.1+commit.c8a2cb62".to_string(),
        "garbage".to_string(),
    ];
    let mut cache = DownloadCache::new();
    let notes = cache
        .load_from_dir(&fetcher, &fetcher.folder(), &names, |path: &str| {
            files.get(path).cloned().ok_or(IoFailure {
                kind: IoKind::NotFound,
                message: path.to_string(),
            })
        })
        .unwrap();

    assert_eq!(notes.len(), 3);
    assert_eq!(notes[0].version, v1);
    assert_eq!(notes[0].solc_path, "compilers/v0.4.10+commit.f0d539ae/solc");
    assert_eq!(notes[0].outcome, Reconciled::Installed);
    assert_eq!(notes[1].version, v2);
    match &notes[1].outcome {
        Reconciled::HashMismatch(mismatch) => {
            assert_eq!(mismatch.expected, digest_of(b"second compiler"));
            assert_eq!(mismatch.found, digest_of(b"second compiler, damaged"));
        },
        other => panic!("expected a mismatch, got {:?}", other),
    }
    assert_eq!(notes[2].version, v3);
    assert_eq!(notes[2].outcome, Reconciled::Unlisted);

    assert_eq!(cache.len(), 1);
    assert_eq!(cache.try_get(&v1), Some("compilers/v0.4.10+commit.f0d539ae/solc".to_string()));
    assert_eq!(cache.try_get(&v2), None);
    assert_eq!(cache.try_get(&v3), None);

    // what was taken over is not fetched
    assert_eq!(
        cache.get(&fetcher, &v1),
        Ok("compilers/v0.4.10+commit.f0d539ae/solc".to_string())
    );
    assert!(fetcher.fetched.borrow().is_empty());
}

#[test]
fn a_file_with_another_digest_is_fetched_anew() {
    let version = Version::from_str("v0.4.10+commit.f0d539ae").unwrap();
    let files = folder_with(&[("v0.4.10+commit.f0d539ae", b"not what was announced")]);
    let fetcher = ListedFetcher {
        hashes: HashMap::from([(version, digest_of(b"the compiler"))]),
        fetched: RefCell::new(vec![]),
    };
    let names = vec!["v0.4.10+commit.f0d539ae".to_string()];
    let mut cache = DownloadCache::new();
    let notes = cache
        .load_from_dir(&fetcher, "compilers", &names, |path: &str| Ok(files[path].clone()))
        .unwrap();
    assert!(matches!(notes[0].outcome, Reconciled::HashMismatch(_)));
    assert_eq!(cache.len(), 0);

    assert_eq!(cache.get(&fetcher, &version), Ok("fetched/v0.4.10+commit.f0d539ae".to_string()));
    assert_eq!(*fetcher.fetched.borrow(), vec![version]);
}

#[test]
fn a_file_that_cannot_be_read_ends_the_pass() {
    let v1 = Version::from_str("v0.4.10+commit.f0d539ae").unwrap();
    let v2 = Version::from_str("v0.8.13+commit.abaa5c0e").unwrap();
    let files = folder_with(&[("v0.4.10+commit.f0d539ae", b"first compiler")]);
    let fetcher = ListedFetcher {
        hashes: HashMap::from([(v1, digest_of(b"first compiler")), (v2, H256::zero())]),
        fetched: RefCell::new(vec![]),
    };
    let names = vec![
        "v0.4.10+commit.f0d539ae".to_string(),
        "v0.8.13+commit.abaa5c0e".to_string(),
    ];
    let mut cache = DownloadCache::new();
    let failure = IoFailure { kind: IoKind::Other, message: "permission denied".to_string() };
    let result = cache.load_from_dir(&fetcher, "compilers", &names, |path: &str| {
        files.get(path).cloned().ok_or(failure.clone())
    });
    assert_eq!(result, Err(failure.clone()));
    assert_eq!(cache.try_get(&v1), Some("compilers/v0.4.10+commit.f0d539ae/solc".to_string()));
    assert_eq!(cache.try_get(&v2), None);
}

#[test]
fn a_file_of_an_unlisted_version_is_not_read() {
    let fetcher = MockFetcher::new();
    let names = vec!["v0.4.10+commit.f0d539ae".to_string()];
    let mut cache = DownloadCache::new();
    let notes = cache
        .load_from_dir(&fetcher, "compilers", &names, |_path: &str| -> Result<Vec<u8>, IoFailure> {
            panic!("nothing is to be read")
        })
        .unwrap();
    assert_eq!(notes[0].outcome, Reconciled::Unlisted);
    assert_eq!(cache.len(), 0);
    assert_eq!(fetcher.count(&notes[0].version), 0);
}

#[test]
fn adopt_keeps_what_was_recorded() {
    let version = Version::from_str("v0.4.10+commit.f0d539ae").unwrap();
    let local = LocalCompiler { version, solc_path: "compilers/v/solc".to_string() };
    let mut cache = DownloadCache::new();
    cache.install(&version, "recorded before".to_string());
    assert_eq!(cache.adopt(&local, digest_of(b"abc"), b"abc"), Reconciled::Kept);
    assert_eq!(cache.try_get(&version), Some("recorded before".to_string()));
    let mut empty = DownloadCache::new();
    assert_eq!(empty.adopt(&local, digest_of(b"abc"), b"abc"), Reconciled::Installed);
    assert_eq!(empty.try_get(&version), Some("compilers/v/solc".to_string()));
}

#[test]
fn a_version_found_twice_or_recorded_before_is_kept() {
    let v1 = Version::from_str("v0.4.10+commit.f0d539ae").unwrap();
    let v2 = Version::from_str("v0.8.13+commit.abaa5c0e").unwrap();
    let files = folder_with(&[
        ("v0.4.10+commit.f0d539ae", b"first compiler"),
        ("v0.8.13+commit.abaa5c0e", b"second compiler"),
    ]);
    let fetcher = ListedFetcher {
        hashes: HashMap::from([
            (v1, digest_of(b"first compiler")),
            (v2, digest_of(b"second compiler")),
        ]),
        fetched: RefCell::new(vec![]),
    };
    let names = vec![
        "v0.4.10+commit.f0d539ae".to_string(),
        "v0.8.13+commit.abaa5c0e".to_string(),
        "v0.4.10+commit.f0d539ae".to_string(),
    ];
    let mut cache = DownloadCache::new();
    cache.install(&v2, "recorded before".to_string());
    let notes = cache
        .load_from_dir(&fetcher, "compilers", &names, |path: &str| Ok(files[path].clone()))
        .unwrap();
    assert_eq!(notes[0].outcome, Reconciled::Installed);
    assert_eq!(notes[1].outcome, Reconciled::Kept);
    assert_eq!(notes[2].outcome, Reconciled::Kept);
    assert_eq!(cache.try_get(&v1), Some("compilers/v0.4.10+commit.f0d539ae/solc".to_string()));
    assert_eq!(cache.try_get(&v2), Some("recorded before".to_string()));
    assert_eq!(cache.len(), 2);
}
