//! What is decided when compilers come from an object store.
//!
//! The bucket keeps the binary of a version at `<version>/solc` and its
//! digest, 32 raw bytes, at `<version>/sha256.hash`. Listing the bucket with
//! the delimiter `/` gives one common prefix per version. Asking the store
//! is the caller's part; what to ask for and what to make of the answers is
//! decided here.

use crate::digits::{decimal, push_decimal};
use crate::fetcher::{join_path, joined, FetchError};
use crate::hash::H256;
use crate::version::Version;
use crate::version_set::VersionSet;
use vstd::prelude::*;
use vstd::string::*;

verus! {

/// The status with which the store hands out an object.
pub const STATUS_OK: u16 = 200;

/// A text without the one `/` that may end it.
pub open spec fn without_slash(s: Seq<char>) -> Seq<char> {
    if s.len() > 0 && s.last() == '/' {
        s.drop_last()
    } else {
        s
    }
}

/// Where the last segment of a path starts: behind its last `/`.
pub open spec fn segment_start(s: Seq<char>) -> int
    decreases s.len(),
{
    if s.len() == 0 {
        0
    } else if s.last() == '/' {
        s.len() as int
    } else {
        segment_start(s.drop_last())
    }
}

/// The last segment of a common prefix: what stands between its last `/`
/// but one and the `/` that ends it.
pub open spec fn terminal_segment(s: Seq<char>) -> Seq<char> {
    let t = without_slash(s);
    t.subrange(segment_start(t), t.len() as int)
}

/// The versions that a listing names: those that the last segment of one of
/// its common prefixes is the canonical text of.
pub open spec fn listed_versions(prefixes: Seq<String>) -> Set<Version> {
    Set::new(
        |v: Version|
            exists|i: int|
                0 <= i < prefixes.len() && Version::parsed(terminal_segment(prefixes[i]@))
                    == Some(v),
    )
}

/// The last segment starts where a `/` stands before it and none behind.
proof fn lemma_segment_start(s: Seq<char>, start: int)
    requires
        0 <= start <= s.len(),
        start == 0 || s[start - 1] == '/',
        forall|k: int| start <= k < s.len() ==> s[k] != '/',
    ensures
        segment_start(s) == start,
    decreases s.len(),
{
    if s.len() > start {
        let init = s.drop_last();
        assert(s.last() == s[s.len() - 1]);
        assert forall|k: int| start <= k < init.len() implies init[k] != '/' by {
            assert(init[k] == s[k]);
        }
        if start > 0 {
            assert(init[start - 1] == s[start - 1]);
        }
        lemma_segment_start(init, start);
    }
}

/// The last segment of a common prefix.
pub fn last_segment(prefix: &str) -> (segment: &str)
    ensures
        segment@ == terminal_segment(prefix@),
{
    let n = prefix.unicode_len();
    let end = if n > 0 && prefix.get_char(n - 1) == '/' {
        n - 1
    } else {
        n
    };
    let ghost t = without_slash(prefix@);
    assert(t =~= prefix@.subrange(0, end as int));
    let mut start = end;
    while start > 0 && prefix.get_char(start - 1) != '/'
        invariant
            0 <= start <= end <= prefix@.len(),
            t == prefix@.subrange(0, end as int),
            forall|k: int| start <= k < end ==> t[k] != '/',
        decreases start,
    {
        start = start - 1;
    }
    proof {
        lemma_segment_start(t, start as int);
        assert(prefix@.subrange(start as int, end as int) =~= t.subrange(
            start as int,
            t.len() as int,
        ));
    }
    prefix.substring_char(start, end)
}

/// The versions that a listing of the bucket names. A common prefix that
/// names no version is passed over.
pub fn versions_from_prefixes(prefixes: &Vec<String>) -> (set: VersionSet)
    ensures
        set.wf(),
        set@ == listed_versions(prefixes@),
{
    let mut set = VersionSet::new();
    let mut k: usize = 0;
    while k < prefixes.len()
        invariant
            0 <= k <= prefixes@.len(),
            set.wf(),
            set@ == listed_versions(prefixes@.subrange(0, k as int)),
        decreases prefixes@.len() - k,
    {
        let ghost before = prefixes@.subrange(0, k as int);
        let ghost after = prefixes@.subrange(0, k + 1);
        let ghost old_set = set@;
        let parsed = Version::from_str(last_segment(prefixes[k].as_str()));
        proof {
            assert forall|v: Version|
                listed_versions(after).contains(v) <==> listed_versions(before).contains(v)
                    || Version::parsed(terminal_segment(prefixes@[k as int]@)) == Some(v) by {
                if listed_versions(before).contains(v) {
                    let i = choose|i: int|
                        0 <= i < before.len() && Version::parsed(terminal_segment(before[i]@))
                            == Some(v);
                    assert(after[i] == before[i]);
                }
                if Version::parsed(terminal_segment(prefixes@[k as int]@)) == Some(v) {
                    assert(after[k as int] == prefixes@[k as int]);
                }
                if listed_versions(after).contains(v) {
                    let i = choose|i: int|
                        0 <= i < after.len() && Version::parsed(terminal_segment(after[i]@))
                            == Some(v);
                    if i < k {
                        assert(before[i] == after[i]);
                    }
                }
            }
        }
        match parsed {
            Ok(version) => {
                set.insert(version);
                assert(set@ =~= listed_versions(after));
            },
            Err(_) => {
                assert(set@ =~= listed_versions(after));
            },
        }
        k = k + 1;
    }
    proof {
        assert(prefixes@.subrange(0, prefixes@.len() as int) =~= prefixes@);
    }
    set
}

/// The two objects to ask the store for.
#[derive(Clone, Debug, PartialEq, Eq)]
pub struct ObjectKeys {
    /// The key of the binary.
    pub data: String,
    /// The key of its digest.
    pub hash: String,
}

/// The text `solc`, the name of the binary below its version.
pub open spec fn data_name() -> Seq<char> {
    seq!['s', 'o', 'l', 'c']
}

/// The text `sha256.hash`, the name of the digest below its version.
pub open spec fn hash_name() -> Seq<char> {
    seq!['s', 'h', 'a', '2', '5', '6', '.', 'h', 'a', 's', 'h']
}

/// What to ask the store for to fetch `ver`: the keys of its binary and of
/// its digest, where the listing names the version.
pub fn plan_fetch(listed: &VersionSet, ver: &Version) -> (r: Result<ObjectKeys, FetchError>)
    requires
        ver.wf(),
    ensures
        match r {
            Ok(keys) => listed@.contains(*ver) && keys.data@ == joined(
                ver.canonical(),
                data_name(),
            ) && keys.hash@ == joined(ver.canonical(), hash_name()),
            Err(e) => !listed@.contains(*ver) && e == FetchError::NotFound(*ver),
        },
{
    if !listed.contains(ver) {
        return Err(FetchError::NotFound(*ver));
    }
    proof {
        reveal_strlit("solc");
        reveal_strlit("sha256.hash");
        assert("solc"@ =~= data_name());
        assert("sha256.hash"@ =~= hash_name());
    }
    let folder = ver.to_string();
    let data = join_path(folder.as_str(), "solc");
    let hash = join_path(folder.as_str(), "sha256.hash");
    Ok(ObjectKeys { data, hash })
}

/// What an error says of a status other than 200.
pub open spec fn status_message(name: Seq<char>, status_code: u16) -> Seq<char> {
    "s3 returned non 200 status code while fetching "@ + name + ": "@ + decimal(
        status_code as nat,
    )
}

/// The error for an object that the store answered for with a status other
/// than 200.
pub fn status_code_error(name: &str, status_code: u16) -> (e: FetchError)
    ensures
        e matches FetchError::Fetch(message) && message@ == status_message(name@, status_code),
{
    let mut message = String::from_str("s3 returned non 200 status code while fetching ");
    message.append(name);
    message.append(": ");
    push_decimal(&mut message, status_code as u64);
    FetchError::Fetch(message)
}

/// What asking the store for one object came to: the body and the status,
/// or the error of the request.
pub type Response = Result<(Vec<u8>, u16), FetchError>;

/// What the error says where the object of the digest does not hold 32
/// bytes.
pub open spec fn digest_length_message() -> Seq<char> {
    "s3 returned a hash that is not 32 bytes long"@
}

/// What fetching a version from the store came to, given the answers for
/// its binary and for its digest, each from a task of its own: an outer
/// error says that the task was cancelled or died.
pub open spec fn fetched_file(
    data: Result<Response, String>,
    hash: Result<Response, String>,
    r: Result<(Vec<u8>, H256), FetchError>,
) -> bool {
    match hash {
        Err(reason) => r == Err::<(Vec<u8>, H256), FetchError>(FetchError::Schedule(reason)),
        Ok(Err(e)) => r == Err::<(Vec<u8>, H256), FetchError>(e),
        Ok(Ok((digest, hash_status))) => if hash_status != STATUS_OK {
            r matches Err(FetchError::Fetch(m)) && m@ == status_message(
                "hash data"@,
                hash_status,
            )
        } else {
            match data {
                Err(reason) => r == Err::<(Vec<u8>, H256), FetchError>(
                    FetchError::Schedule(reason),
                ),
                Ok(Err(e)) => r == Err::<(Vec<u8>, H256), FetchError>(e),
                Ok(Ok((body, data_status))) => if data_status != STATUS_OK {
                    r matches Err(FetchError::Fetch(m)) && m@ == status_message(
                        "executable file"@,
                        data_status,
                    )
                } else if digest@.len() != 32 {
                    r matches Err(FetchError::Fetch(m)) && m@ == digest_length_message()
                } else {
                    r matches Ok((bytes, sha)) && bytes == body && sha@ == digest@
                },
            }
        },
    }
}

/// Decides what fetching a version from the store came to: the binary with
/// its announced digest where both objects arrived with status 200 and the
/// digest holds 32 bytes. What went wrong with the digest is reported before
/// what went wrong with the binary.
pub fn fetch_file(data: Result<Response, String>, hash: Result<Response, String>) -> (r: Result<
    (Vec<u8>, H256),
    FetchError,
>)
    ensures
        fetched_file(data, hash, r),
{
    let (digest, hash_status) = match hash {
        Err(reason) => {
            return Err(FetchError::Schedule(reason));
        },
        Ok(Err(e)) => {
            return Err(e);
        },
        Ok(Ok(answer)) => answer,
    };
    if hash_status != STATUS_OK {
        return Err(status_code_error("hash data", hash_status));
    }
    let (body, data_status) = match data {
        Err(reason) => {
            return Err(FetchError::Schedule(reason));
        },
        Ok(Err(e)) => {
            return Err(e);
        },
        Ok(Ok(answer)) => answer,
    };
    if data_status != STATUS_OK {
        return Err(status_code_error("executable file", data_status));
    }
    match H256::try_from_slice(digest.as_slice()) {
        Some(sha) => Ok((body, sha)),
        None => Err(FetchError::Fetch(String::from_str("s3 returned a hash that is not 32 bytes long"))),
    }
}

} // verus!
