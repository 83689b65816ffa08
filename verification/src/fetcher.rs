//! What a fetcher is, how fetching fails, and what is decided when a fetched
//! binary is checked and written to disk.
//!
//! A binary is kept at `<folder>/<version>/solc`. The file system itself is
//! not reached from here: the caller creates the folder, removes an old file,
//! writes the new one with `EXECUTABLE_MODE`, and reports how that went.

use crate::hash::{check_hashsum, sha256, Mismatch, H256};
use crate::version::Version;
use vstd::prelude::*;
use vstd::string::*;

verus! {

/// The mode of a compiler binary on disk: read, write and execute for owner,
/// group and others.
pub const EXECUTABLE_MODE: u32 = 0o777;

/// What kind of failure the file system reported.
#[derive(Clone, Copy, Debug, PartialEq, Eq, Structural)]
pub enum IoKind {
    /// The file or folder does not exist.
    NotFound,
    /// Any other failure: permissions, a full disk.
    Other,
}

/// A failure of the file system.
#[derive(Clone, Debug, PartialEq, Eq)]
pub struct IoFailure {
    pub kind: IoKind,
    pub message: String,
}

/// Why a compiler could not be fetched.
#[derive(Clone, Debug, PartialEq, Eq)]
pub enum FetchError {
    /// The upstream does not list the version.
    NotFound(Version),
    /// The network or the object store failed, or answered with a status
    /// other than 200.
    Fetch(String),
    /// The bytes that arrived do not have the digest that was announced.
    HashMismatch(Mismatch<H256>),
    /// The file could not be written.
    File(IoFailure),
    /// The task that hashed or wrote was cancelled or died.
    Schedule(String),
}

/// A source of compiler binaries.
pub trait Fetcher {
    /// Downloads the binary of `ver`, checks it, writes it below the folder
    /// and returns the path of the file.
    fn fetch(&self, ver: &Version) -> Result<String, FetchError>;

    /// The versions that the upstream lists at the moment.
    fn all_versions(&self) -> Vec<Version>;

    /// The folder below which binaries are written.
    fn folder(&self) -> String;

    /// The digest that the upstream announces for `ver`, where it is known
    /// without fetching. A fetcher that does not say otherwise knows none.
    fn get_hash(&self, ver: &Version) -> (hash: Option<H256>)
        default_ensures
            hash is None,
    {
        None
    }
}

/// A source of the list of versions that an upstream offers.
pub trait VersionsFetcher {
    type Response;

    type Error;

    /// Asks the upstream for its list.
    fn fetch_versions(&self) -> Result<Self::Response, Self::Error>;
}

/// The path `base/name`: `name` alone below an empty base, and no second
/// separator behind a base that ends in one.
pub open spec fn joined(base: Seq<char>, name: Seq<char>) -> Seq<char> {
    if base.len() == 0 {
        name
    } else if base.last() == '/' {
        base + name
    } else {
        base + seq!['/'] + name
    }
}

/// The text `solc`, the name of a compiler binary in its folder.
pub open spec fn binary_name() -> Seq<char> {
    seq!['s', 'o', 'l', 'c']
}

/// The folder of the binary of `ver` below `root`.
pub open spec fn folder_of(root: Seq<char>, ver: Version) -> Seq<char> {
    joined(root, ver.canonical())
}

/// The path of the binary of `ver` below `root`.
pub open spec fn binary_path(root: Seq<char>, ver: Version) -> Seq<char> {
    joined(folder_of(root, ver), binary_name())
}

/// Joins a folder and the name of something in it.
pub fn join_path(base: &str, name: &str) -> (path: String)
    ensures
        path@ == joined(base@, name@),
{
    proof {
        reveal_strlit("/");
    }
    let n = base.unicode_len();
    if n == 0 {
        let path = String::from_str(name);
        path
    } else if base.get_char(n - 1) == '/' {
        let mut path = String::from_str(base);
        path.append(name);
        path
    } else {
        let mut path = String::from_str(base);
        path.append("/");
        path.append(name);
        assert(path@ =~= base@ + seq!['/'] + name@);
        path
    }
}

/// Where a binary goes and with which mode it is created.
#[derive(Clone, Debug, PartialEq, Eq)]
pub struct SavePlan {
    /// The folder to create, with the folders above it.
    pub folder: String,
    /// The file to replace.
    pub file: String,
    /// The mode to create the file with.
    pub mode: u32,
}

/// Where the binary of `ver` goes below `root`.
pub fn save_plan(root: &str, ver: &Version) -> (plan: SavePlan)
    requires
        ver.wf(),
    ensures
        plan.folder@ == folder_of(root@, *ver),
        plan.file@ == binary_path(root@, *ver),
        plan.mode == EXECUTABLE_MODE,
{
    proof {
        reveal_strlit("solc");
        assert("solc"@ =~= binary_name());
    }
    let name = ver.to_string();
    let folder = join_path(root, name.as_str());
    let file = join_path(folder.as_str(), "solc");
    SavePlan { folder, file, mode: EXECUTABLE_MODE }
}

/// What removing the old file amounts to: that there was none is no failure.
pub fn tolerate_missing(removed: Result<(), IoFailure>) -> (r: Result<(), IoFailure>)
    ensures
        r == (match removed {
            Ok(_) => Ok::<(), IoFailure>(()),
            Err(e) => if e.kind == IoKind::NotFound {
                Ok(())
            } else {
                Err(e)
            },
        }),
{
    match removed {
        Ok(_) => Ok(()),
        Err(e) => match e.kind {
            IoKind::NotFound => Ok(()),
            IoKind::Other => Err(e),
        },
    }
}

/// What came of hashing and of writing, each on a task of its own: the
/// outer error says that the task was cancelled or died.
pub open spec fn save_result(
    check: Result<Result<(), Mismatch<H256>>, String>,
    save: Result<Result<(), IoFailure>, String>,
    file: String,
) -> Result<String, FetchError> {
    match check {
        Err(reason) => Err(FetchError::Schedule(reason)),
        Ok(Err(mismatch)) => Err(FetchError::HashMismatch(mismatch)),
        Ok(Ok(_)) => match save {
            Err(reason) => Err(FetchError::Schedule(reason)),
            Ok(Err(failure)) => Err(FetchError::File(failure)),
            Ok(Ok(_)) => Ok(file),
        },
    }
}

/// Decides what saving a binary came to once both tasks have ended: the
/// path of the file where both succeeded; else the failure of the check
/// before that of the write, and a task that died before what it returned.
pub fn finish_save(
    check: Result<Result<(), Mismatch<H256>>, String>,
    save: Result<Result<(), IoFailure>, String>,
    file: String,
) -> (r: Result<String, FetchError>)
    ensures
        r == save_result(check, save, file),
{
    match check {
        Err(reason) => Err(FetchError::Schedule(reason)),
        Ok(Err(mismatch)) => Err(FetchError::HashMismatch(mismatch)),
        Ok(Ok(_)) => match save {
            Err(reason) => Err(FetchError::Schedule(reason)),
            Ok(Err(failure)) => Err(FetchError::File(failure)),
            Ok(Ok(_)) => Ok(file),
        },
    }
}

/// Checks `data` against the digest `sha` and answers for the write below
/// `path` that the caller made, whose outcome is `saved`: the path of the
/// binary where the digest is right and the write succeeded, the mismatch
/// where the digest is wrong, else the failure of the write.
pub fn write_executable(
    data: &[u8],
    sha: H256,
    path: &str,
    ver: &Version,
    saved: Result<(), IoFailure>,
) -> (r: Result<String, FetchError>)
    requires
        ver.wf(),
    ensures
        match r {
            Ok(file) => sha256(data@) == sha@ && saved is Ok && file@ == binary_path(path@, *ver),
            Err(FetchError::HashMismatch(m)) => sha256(data@) != sha@ && m.expected == sha
                && m.found@ == sha256(data@),
            Err(FetchError::File(e)) => sha256(data@) == sha@ && saved == Err::<(), IoFailure>(e),
            Err(_) => false,
        },
{
    let plan = save_plan(path, ver);
    let checked = check_hashsum(data, sha);
    finish_save(Ok(checked), Ok(saved), plan.file)
}

} // verus!
