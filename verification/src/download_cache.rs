//! The cache of compilers that are on disk: for each version at most one
//! path, which stays what it is once it has been recorded.

use crate::fetcher::{FetchError, Fetcher};
use crate::version::Version;
use vstd::prelude::*;

verus! {

/// One version with the path of its binary.
#[derive(Clone, Debug, PartialEq, Eq)]
pub struct CacheEntry {
    pub version: Version,
    pub path: String,
}

/// Whether no version stands twice among `entries`.
pub open spec fn distinct_versions(entries: Seq<CacheEntry>) -> bool {
    forall|i: int, j: int|
        0 <= i < entries.len() && 0 <= j < entries.len() && i != j ==> entries[i].version
            != entries[j].version
}

/// Whether `i` is the place of `ver` among `entries`.
pub open spec fn is_place_of(entries: Seq<CacheEntry>, ver: Version, i: int) -> bool {
    0 <= i < entries.len() && entries[i].version == ver
}

/// The paths by version that `entries` record.
pub open spec fn paths_of(entries: Seq<CacheEntry>) -> Map<Version, Seq<char>> {
    Map::new(
        |v: Version| exists|i: int| is_place_of(entries, v, i),
        |v: Version| entries[choose|i: int| is_place_of(entries, v, i)].path@,
    )
}

/// Recording a version that is not yet there adds it and changes nothing
/// else.
proof fn lemma_paths_push(entries: Seq<CacheEntry>, entry: CacheEntry)
    requires
        distinct_versions(entries),
        !paths_of(entries).contains_key(entry.version),
    ensures
        distinct_versions(entries.push(entry)),
        paths_of(entries.push(entry)) == paths_of(entries).insert(entry.version, entry.path@),
{
    let more = entries.push(entry);
    assert forall|i: int, j: int|
        0 <= i < more.len() && 0 <= j < more.len() && i != j implies more[i].version
        != more[j].version by {
        if i < entries.len() {
            assert(is_place_of(entries, entries[i].version, i));
        }
        if j < entries.len() {
            assert(is_place_of(entries, entries[j].version, j));
        }
    }
    assert forall|v: Version|
        paths_of(more).contains_key(v) == paths_of(entries).insert(
            entry.version,
            entry.path@,
        ).contains_key(v) by {
        if v == entry.version {
            assert(is_place_of(more, v, entries.len() as int));
        } else {
            if paths_of(entries).contains_key(v) {
                let i = choose|i: int| is_place_of(entries, v, i);
                assert(is_place_of(more, v, i));
            }
            if paths_of(more).contains_key(v) {
                let i = choose|i: int| is_place_of(more, v, i);
                assert(is_place_of(entries, v, i));
            }
        }
    }
    assert forall|v: Version| paths_of(more).contains_key(v) implies paths_of(more)[v]
        == paths_of(entries).insert(entry.version, entry.path@)[v] by {
        let i = choose|i: int| is_place_of(more, v, i);
        if v == entry.version {
            assert(is_place_of(more, v, entries.len() as int));
        } else {
            assert(is_place_of(entries, v, i));
            let k = choose|k: int| is_place_of(entries, v, k);
            assert(is_place_of(more, v, k));
        }
    }
    assert(paths_of(more) =~= paths_of(entries).insert(entry.version, entry.path@));
}

/// Whether `fetcher`, asked to fetch `v`, may come back with `outcome`.
pub open spec fn fetched<D: Fetcher>(
    fetcher: &D,
    v: Version,
    outcome: Result<String, FetchError>,
) -> bool {
    call_ensures(D::fetch, (fetcher, &v), outcome)
}

/// The compilers on disk, by version.
#[derive(Clone, Debug)]
pub struct DownloadCache {
    entries: Vec<CacheEntry>,
}

impl View for DownloadCache {
    type V = Map<Version, Seq<char>>;

    closed spec fn view(&self) -> Map<Version, Seq<char>> {
        paths_of(self.entries@)
    }
}

impl DownloadCache {
    /// Whether the cache is in order: no version is recorded twice.
    pub closed spec fn wf(&self) -> bool {
        distinct_versions(self.entries@)
    }

    /// A cache that records nothing.
    pub fn new() -> (cache: DownloadCache)
        ensures
            cache.wf(),
            cache@ == Map::<Version, Seq<char>>::empty(),
    {
        let cache = DownloadCache { entries: Vec::new() };
        assert(cache@ =~= Map::<Version, Seq<char>>::empty());
        cache
    }

    /// The place of `ver` among the entries.
    fn find(&self, ver: &Version) -> (place: Option<usize>)
        ensures
            match place {
                Some(i) => is_place_of(self.entries@, *ver, i as int),
                None => !self@.contains_key(*ver),
            },
    {
        let mut i: usize = 0;
        while i < self.entries.len()
            invariant
                0 <= i <= self.entries@.len(),
                forall|k: int| 0 <= k < i ==> self.entries@[k].version != *ver,
            decreases self.entries@.len() - i,
        {
            if self.entries[i].version == *ver {
                return Some(i);
            }
            i = i + 1;
        }
        None
    }

    /// The path recorded for `ver`.
    pub fn try_get(&self, ver: &Version) -> (path: Option<String>)
        requires
            self.wf(),
        ensures
            match path {
                Some(p) => self@.contains_key(*ver) && p@ == self@[*ver],
                None => !self@.contains_key(*ver),
            },
    {
        match self.find(ver) {
            Some(i) => {
                proof {
                    let k = choose|k: int| is_place_of(self.entries@, *ver, k);
                    assert(k == i);
                }
                Some(self.entries[i].path.clone())
            },
            None => None,
        }
    }

    /// How many versions are recorded.
    pub fn len(&self) -> (n: usize)
        requires
            self.wf(),
        ensures
            n == self@.dom().len(),
            self@.dom().finite(),
    {
        proof {
            lemma_paths_count(self.entries@);
        }
        self.entries.len()
    }

    /// Records `path` for `ver` where nothing is recorded for it, and says
    /// whether it did. What is recorded is never replaced.
    pub fn install(&mut self, ver: &Version, path: String) -> (installed: bool)
        requires
            old(self).wf(),
        ensures
            final(self).wf(),
            installed == !old(self)@.contains_key(*ver),
            final(self)@ == (if installed {
                old(self)@.insert(*ver, path@)
            } else {
                old(self)@
            }),
    {
        match self.find(ver) {
            Some(_) => false,
            None => {
                let entry = CacheEntry { version: *ver, path };
                proof {
                    lemma_paths_push(self.entries@, entry);
                }
                self.entries.push(entry);
                true
            },
        }
    }

    /// Takes in what a fetch of `ver` came to. A path that is recorded
    /// already is the answer, whatever the fetch brought. Else the fetched
    /// path is recorded and returned; a failed fetch records nothing, so
    /// that it can be tried again, and its error is handed on.
    pub fn record(&mut self, ver: &Version, outcome: Result<String, FetchError>) -> (r: Result<
        String,
        FetchError,
    >)
        requires
            old(self).wf(),
        ensures
            final(self).wf(),
            old(self)@.contains_key(*ver) ==> final(self)@ == old(self)@ && r is Ok && r->Ok_0@
                == old(self)@[*ver],
            !old(self)@.contains_key(*ver) ==> match outcome {
                Ok(p) => final(self)@ == old(self)@.insert(*ver, p@) && r is Ok && r->Ok_0@ == p@,
                Err(e) => final(self)@ == old(self)@ && r == Err::<String, FetchError>(e),
            },
    {
        match self.try_get(ver) {
            Some(path) => Ok(path),
            None => match outcome {
                Ok(path) => {
                    let answer = path.clone();
                    self.install(ver, path);
                    Ok(answer)
                },
                Err(e) => Err(e),
            },
        }
    }

    /// The path of the binary of `ver`: the recorded one, else the one that
    /// `fetcher` brings when asked for `ver`, which is recorded. Where the
    /// fetcher fails nothing is recorded and its error is the answer.
    pub fn get<D: Fetcher>(&mut self, fetcher: &D, ver: &Version) -> (r: Result<
        String,
        FetchError,
    >)
        requires
            old(self).wf(),
        ensures
            final(self).wf(),
            old(self)@.contains_key(*ver) ==> final(self)@ == old(self)@ && r is Ok && r->Ok_0@
                == old(self)@[*ver],
            !old(self)@.contains_key(*ver) ==> match r {
                Ok(p) => final(self)@ == old(self)@.insert(*ver, p@),
                Err(_) => final(self)@ == old(self)@,
            },
            !old(self)@.contains_key(*ver) ==> exists|outcome: Result<String, FetchError>| #[trigger]
                fetched(fetcher, *ver, outcome) && (match outcome {
                    Ok(p) => r is Ok && r->Ok_0@ == p@,
                    Err(e) => r == Err::<String, FetchError>(e),
                }),
    {
        match self.try_get(ver) {
            Some(path) => Ok(path),
            None => {
                let outcome = fetcher.fetch(ver);
                assert(fetched(fetcher, *ver, outcome));
                self.record(ver, outcome)
            },
        }
    }
}

impl Default for DownloadCache {
    fn default() -> (cache: DownloadCache)
        ensures
            cache.wf(),
            cache@ == Map::<Version, Seq<char>>::empty(),
    {
        DownloadCache::new()
    }
}

/// As many versions are recorded as there are entries.
proof fn lemma_paths_count(entries: Seq<CacheEntry>)
    requires
        distinct_versions(entries),
    ensures
        paths_of(entries).dom().finite(),
        paths_of(entries).dom().len() == entries.len(),
    decreases entries.len(),
{
    if entries.len() == 0 {
        assert(paths_of(entries).dom() =~= Set::<Version>::empty());
    } else {
        let init = entries.drop_last();
        let last = entries.last();
        assert(distinct_versions(init)) by {
            assert forall|i: int, j: int|
                0 <= i < init.len() && 0 <= j < init.len() && i != j implies init[i].version
                != init[j].version by {
                assert(init[i] == entries[i] && init[j] == entries[j]);
            }
        }
        lemma_paths_count(init);
        assert(!paths_of(init).contains_key(last.version)) by {
            if paths_of(init).contains_key(last.version) {
                let i = choose|i: int| is_place_of(init, last.version, i);
                assert(entries[i] == init[i]);
            }
        }
        lemma_paths_push(init, last);
        assert(init.push(last) =~= entries);
        assert(paths_of(entries).dom() =~= paths_of(init).dom().insert(last.version));
    }
}

} // verus!
