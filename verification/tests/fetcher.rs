use compiler_cache::fetcher::{
    finish_save, join_path, save_plan, tolerate_missing, write_executable, FetchError, IoFailure,
    IoKind, SavePlan, EXECUTABLE_MODE,
};
use compiler_cache::hash::{check_hashsum, compare_hash, digest_of, Mismatch, H256};
use compiler_cache::version::Version;
use sha2::{Digest, Sha256};

fn sha256_of(data: &[u8]) -> H256 {
    H256::from_slice(&Sha256::digest(data))
}

#[test]
fn save_text() {
    let tmp_dir = "/tmp";
    let data = "this is a compiler binary";
    let sha = Sha256::digest(data.as_bytes());
    let version = Version::from_str("v0.4.10+commit.f0d539ae").unwrap();
    let plan = save_plan(tmp_dir, &version);
    assert_eq!(plan.folder, "/tmp/v0.4.10+commit.f0d539ae");
    assert_eq!(plan.file, "/tmp/v0.4.10+commit.f0d539ae/solc");
    assert_eq!(plan.mode, 0o777);
    let file =
        write_executable(data.as_bytes(), H256::from_slice(&sha), tmp_dir, &version, Ok(()))
            .unwrap();
    assert_eq!(file, "/tmp/v0.4.10+commit.f0d539ae/solc");
}

#[test]
fn a_wrong_digest_is_a_mismatch_and_the_right_one_is_not() {
    let version = Version::from_str("v0.4.10+commit.f0d539ae").unwrap();
    let wrong = sha256_of(b"world");
    let right = sha256_of(b"hello");
    let failed = write_executable(b"hello", wrong, "compilers", &version, Ok(()));
    assert_eq!(
        failed,
        Err(FetchError::HashMismatch(Mismatch { expected: wrong, found: right }))
    );
    let saved = write_executable(b"hello", right, "compilers", &version, Ok(()));
    assert_eq!(saved, Ok("compilers/v0.4.10+commit.f0d539ae/solc".to_string()));
}

#[test]
fn a_failed_write_is_a_file_error() {
    let version = Version::from_str("v0.4.10+commit.f0d539ae").unwrap();
    let failure = IoFailure { kind: IoKind::Other, message: "disk full".to_string() };
    let result =
        write_executable(b"hello", sha256_of(b"hello"), "compilers", &version, Err(failure.clone()));
    assert_eq!(result, Err(FetchError::File(failure.clone())));
    // the mismatch is reported before the failed write
    let result = write_executable(b"hello", sha256_of(b"world"), "compilers", &version, Err(failure));
    assert!(matches!(result, Err(FetchError::HashMismatch(_))));
}

#[test]
fn the_digest_is_that_of_sha256() {
    let empty: [u8; 32] = [
        0xe3, 0xb0, 0xc4, 0x42, 0x98, 0xfc, 0x1c, 0x14, 0x9a, 0xfb, 0xf4, 0xc8, 0x99, 0x6f, 0xb9,
        0x24, 0x27, 0xae, 0x41, 0xe4, 0x64, 0x9b, 0x93, 0x4c, 0xa4, 0x95, 0x99, 0x1b, 0x78, 0x52,
        0xb8, 0x55,
    ];
    let abc: [u8; 32] = [
        0xba, 0x78, 0x16, 0xbf, 0x8f, 0x01, 0xcf, 0xea, 0x41, 0x41, 0x40, 0xde, 0x5d, 0xae, 0x22,
        0x23, 0xb0, 0x03, 0x61, 0xa3, 0x96, 0x17, 0x7a, 0x9c, 0xb4, 0x10, 0xff, 0x61, 0xf2, 0x00,
        0x15, 0xad,
    ];
    assert_eq!(digest_of(b""), H256(empty));
    assert_eq!(digest_of(b"abc"), H256(abc));
    assert_eq!(check_hashsum(b"abc", H256(abc)), Ok(()));
    assert_eq!(
        check_hashsum(b"abd", H256(abc)),
        Err(Mismatch { expected: H256(abc), found: digest_of(b"abd") })
    );
    // a digest of 32 bytes is not its own digest
    assert_eq!(
        check_hashsum(&abc, H256(abc)),
        Err(Mismatch::new(H256(abc), digest_of(&abc)))
    );
}

#[test]
fn digests_are_held_against_each_other() {
    let a = H256([1u8; 32]);
    let mut other = [1u8; 32];
    other[31] = 2;
    let b = H256(other);
    assert_eq!(compare_hash(a, a), Ok(()));
    assert_eq!(compare_hash(a, b), Err(Mismatch { expected: b, found: a }));
    assert!(a == a.clone());
    assert!(a != b);
    assert_eq!(H256::zero(), H256([0u8; 32]));
    assert_eq!(a.as_bytes(), &[1u8; 32]);
    assert_eq!(H256::from_slice(&other), b);
    assert_eq!(H256::try_from_slice(&other), Some(b));
    assert_eq!(H256::try_from_slice(&other[..31]), None);
    assert_eq!(H256::try_from_slice(&[0u8; 33]), None);
    assert_eq!(H256::try_from_slice(&[]), None);
}

#[test]
fn joins_paths() {
    assert_eq!(join_path("compilers", "solc"), "compilers/solc");
    assert_eq!(join_path("compilers/", "solc"), "compilers/solc");
    assert_eq!(join_path("", "solc"), "solc");
    assert_eq!(join_path("/", "solc"), "/solc");
    assert_eq!(join_path("/var/lib/compilers", "v1"), "/var/lib/compilers/v1");
    assert_eq!(join_path("d\u{e9}p\u{f4}t", "solc"), "d\u{e9}p\u{f4}t/solc");
    assert_eq!(join_path("d\u{e9}p\u{f4}t/", "solc"), "d\u{e9}p\u{f4}t/solc");
}

#[test]
fn plans_where_a_binary_goes() {
    let version = Version::from_str("v0.8.14-nightly.2022.4.13+commit.25923c1f").unwrap();
    assert_eq!(
        save_plan("compilers/", &version),
        SavePlan {
            folder: "compilers/v0.8.14-nightly.2022.4.13+commit.25923c1f".to_string(),
            file: "compilers/v0.8.14-nightly.2022.4.13+commit.25923c1f/solc".to_string(),
            mode: 0o777,
        }
    );
    assert_eq!(EXECUTABLE_MODE, 511);
}

#[test]
fn a_missing_old_file_is_no_failure() {
    let missing = IoFailure { kind: IoKind::NotFound, message: "no such file".to_string() };
    let denied = IoFailure { kind: IoKind::Other, message: "permission denied".to_string() };
    assert_eq!(tolerate_missing(Ok(())), Ok(()));
    assert_eq!(tolerate_missing(Err(missing)), Ok(()));
    assert_eq!(tolerate_missing(Err(denied.clone())), Err(denied));
}

#[test]
fn the_check_is_reported_before_the_write() {
    let file = "compilers/v/solc".to_string();
    let mismatch = Mismatch { expected: H256([1; 32]), found: H256([2; 32]) };
    let failure = IoFailure { kind: IoKind::Other, message: "disk full".to_string() };
    assert_eq!(finish_save(Ok(Ok(())), Ok(Ok(())), file.clone()), Ok(file.clone()));
    assert_eq!(
        finish_save(Err("hash task died".to_string()), Err("write task died".to_string()), file.clone()),
        Err(FetchError::Schedule("hash task died".to_string()))
    );
    assert_eq!(
        finish_save(Ok(Err(mismatch)), Err("write task died".to_string()), file.clone()),
        Err(FetchError::HashMismatch(mismatch))
    );
    assert_eq!(
        finish_save(Ok(Ok(())), Err("write task died".to_string()), file.clone()),
        Err(FetchError::Schedule("write task died".to_string()))
    );
    assert_eq!(
        finish_save(Ok(Ok(())), Ok(Err(failure.clone())), file.clone()),
        Err(FetchError::File(failure.clone()))
    );
    assert_eq!(
        finish_save(Ok(Err(mismatch)), Ok(Err(failure)), file),
        Err(FetchError::HashMismatch(mismatch))
    );
}

#[test]
fn digests_are_written_and_read_in_hexadecimal() {
    let mut bytes = [0u8; 32];
    for (i, byte) in bytes.iter_mut().enumerate() {
        *byte = (i * 8 + 7) as u8;
    }
    let digest = H256(bytes);
    let text = "070f171f272f373f474f575f676f777f878f979fa7afb7bfc7cfd7dfe7eff7ff";
    assert_eq!(digest.to_hex(), text);
    assert_eq!(H256::from_hex(text), Some(digest));
    assert_eq!(H256::from_hex(&format!("0x{}", text)), Some(digest));
    assert_eq!(H256::zero().to_hex(), "0".repeat(64));
    assert_eq!(H256::from_hex(&digest_of(b"abc").to_hex()), Some(digest_of(b"abc")));
    assert_eq!(
        digest_of(b"abc").to_hex(),
        "ba7816bf8f01cfea414140de5dae2223b00361a396177a9cb410ff61f20015ad"
    );
}

#[test]
fn what_is_no_digest_is_not_read() {
    let text = "070f171f272f373f474f575f676f777f878f979fa7afb7bfc7cfd7dfe7eff7ff";
    assert_eq!(H256::from_hex(""), None);
    assert_eq!(H256::from_hex("0x"), None);
    assert_eq!(H256::from_hex(&text[1..]), None);
    assert_eq!(H256::from_hex(&format!("{}0", text)), None);
    assert_eq!(H256::from_hex(&format!("0x0x{}", &text[4..])), None);
    assert_eq!(H256::from_hex(&format!("0X{}", text)), None);
    assert_eq!(H256::from_hex(&text.to_uppercase()), None);
    assert_eq!(H256::from_hex(&format!("{}g", &text[1..])), None);
    assert_eq!(H256::from_hex(&format!("{}\u{e9}", &text[2..])), None);
    assert_eq!(H256::from_hex(&format!(" {}", &text[1..])), None);
}
