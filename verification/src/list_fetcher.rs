//! What is decided when compilers come from a list that an upstream
//! publishes: for each version the address of its binary and its digest.

use crate::digits::{decimal, push_decimal};
use crate::fetcher::FetchError;
use crate::hash::{parsed_digest, H256};
use crate::refreshable_versions::Snapshot;
use crate::version::Version;
use vstd::prelude::*;
use vstd::string::*;

verus! {

/// Where the binary of a version is to be had, and the digest it must have.
#[derive(Clone, Debug, PartialEq, Eq)]
pub struct FileInfo {
    pub url: String,
    pub sha256: H256,
}

impl View for FileInfo {
    type V = (Seq<char>, H256);

    open spec fn view(&self) -> (Seq<char>, H256) {
        (self.url@, self.sha256)
    }
}

/// One line of the list.
#[derive(Clone, Debug, PartialEq, Eq)]
pub struct ManifestEntry {
    pub version: Version,
    pub info: FileInfo,
}

/// Whether `i` is the line of `ver`.
pub open spec fn is_line_of(entries: Seq<ManifestEntry>, ver: Version, i: int) -> bool {
    0 <= i < entries.len() && entries[i].version == ver
}

/// Whether no version has two lines.
pub open spec fn one_line_each(entries: Seq<ManifestEntry>) -> bool {
    forall|i: int, j: int|
        0 <= i < entries.len() && 0 <= j < entries.len() && i != j ==> entries[i].version
            != entries[j].version
}

/// What the lines say, by version.
pub open spec fn infos_of(entries: Seq<ManifestEntry>) -> Map<Version, (Seq<char>, H256)> {
    Map::new(
        |v: Version| exists|i: int| is_line_of(entries, v, i),
        |v: Version| entries[choose|i: int| is_line_of(entries, v, i)].info@,
    )
}

/// The versions of the lines, in their order.
pub open spec fn versions_of(entries: Seq<ManifestEntry>) -> Seq<Version> {
    Seq::new(entries.len(), |i: int| entries[i].version)
}

/// Where no version has two lines, the line of a version is what the list
/// says of it.
proof fn lemma_line(entries: Seq<ManifestEntry>, i: int)
    requires
        one_line_each(entries),
        0 <= i < entries.len(),
    ensures
        infos_of(entries).contains_key(entries[i].version),
        infos_of(entries)[entries[i].version] == entries[i].info@,
{
    let v = entries[i].version;
    assert(is_line_of(entries, v, i));
    let k = choose|k: int| is_line_of(entries, v, k);
    assert(k == i);
}

/// The list has as many versions as lines.
proof fn lemma_count(entries: Seq<ManifestEntry>)
    requires
        one_line_each(entries),
    ensures
        versions_of(entries).no_duplicates(),
        versions_of(entries).to_set() == infos_of(entries).dom(),
        infos_of(entries).dom().finite(),
        infos_of(entries).dom().len() == entries.len(),
{
    let versions = versions_of(entries);
    assert(versions.to_set() =~= infos_of(entries).dom()) by {
        assert forall|v: Version| versions.contains(v) <==> infos_of(entries).contains_key(v) by {
            if versions.contains(v) {
                let i = choose|i: int| 0 <= i < versions.len() && versions[i] == v;
                assert(is_line_of(entries, v, i));
            }
            if infos_of(entries).contains_key(v) {
                let i = choose|i: int| is_line_of(entries, v, i);
                assert(versions[i] == v);
            }
        }
    }
    vstd::seq_lib::seq_to_set_is_finite(versions);
    versions.unique_seq_to_set();
}

/// The list of an upstream: what it says of each version it offers.
#[derive(Clone, Debug)]
pub struct Manifest {
    entries: Vec<ManifestEntry>,
}

impl View for Manifest {
    type V = Map<Version, (Seq<char>, H256)>;

    closed spec fn view(&self) -> Map<Version, (Seq<char>, H256)> {
        infos_of(self.entries@)
    }
}

impl Manifest {
    /// Whether the list is in order: no version has two lines.
    pub closed spec fn wf(&self) -> bool {
        one_line_each(self.entries@)
    }

    /// The empty list.
    pub fn new() -> (list: Manifest)
        ensures
            list.wf(),
            list@ == Map::<Version, (Seq<char>, H256)>::empty(),
    {
        let list = Manifest { entries: Vec::new() };
        assert(list@ =~= Map::<Version, (Seq<char>, H256)>::empty());
        list
    }

    /// The line of `ver`.
    fn find(&self, ver: &Version) -> (place: Option<usize>)
        ensures
            match place {
                Some(i) => is_line_of(self.entries@, *ver, i as int),
                None => !self@.contains_key(*ver),
            },
    {
        let mut i: usize = 0;
        while i < self.entries.len()
            invariant
                0 <= i <= self.entries@.len(),
                forall|k: int| 0 <= k < i ==> self.entries@[k].version != *ver,
            decreases self.entries@.len() - i,
        {
            if self.entries[i].version == *ver {
                return Some(i);
            }
            i = i + 1;
        }
        None
    }

    /// Writes what the list says of `ver`, in the place of what it said.
    pub fn insert(&mut self, ver: Version, info: FileInfo)
        requires
            old(self).wf(),
        ensures
            final(self).wf(),
            final(self)@ == old(self)@.insert(ver, info@),
    {
        let entry = ManifestEntry { version: ver, info };
        let ghost before = self.entries@;
        match self.find(&ver) {
            Some(i) => {
                self.entries.set(i, entry);
                proof {
                    let after = self.entries@;
                    assert(after == before.update(i as int, entry));
                    assert forall|v: Version, k: int|
                        is_line_of(after, v, k) <==> is_line_of(before, v, k) by {
                        if 0 <= k < after.len() && k != i {
                            assert(after[k] == before[k]);
                        }
                    }
                    assert forall|a: int, b: int|
                        0 <= a < after.len() && 0 <= b < after.len() && a != b implies after[a].version
                        != after[b].version by {
                        assert(is_line_of(before, after[a].version, a));
                        assert(is_line_of(before, after[b].version, b));
                    }
                    assert forall|v: Version| infos_of(after).contains_key(v) implies infos_of(
                        after,
                    )[v] == infos_of(before).insert(ver, info@)[v] by {
                        let k = choose|k: int| is_line_of(after, v, k);
                        lemma_line(after, k);
                        if v != ver {
                            assert(is_line_of(before, v, k));
                            lemma_line(before, k);
                            assert(after[k] == before[k]);
                        } else {
                            assert(k == i);
                        }
                    }
                    assert(infos_of(after) =~= infos_of(before).insert(ver, info@));
                }
            },
            None => {
                self.entries.push(entry);
                proof {
                    let after = self.entries@;
                    assert(after == before.push(entry));
                    assert forall|a: int, b: int|
                        0 <= a < after.len() && 0 <= b < after.len() && a != b implies after[a].version
                        != after[b].version by {
                        if a < before.len() {
                            assert(is_line_of(before, before[a].version, a));
                        }
                        if b < before.len() {
                            assert(is_line_of(before, before[b].version, b));
                        }
                    }
                    assert forall|v: Version|
                        infos_of(after).contains_key(v) <==> infos_of(before).contains_key(v) || v
                            == ver by {
                        if infos_of(before).contains_key(v) {
                            let k = choose|k: int| is_line_of(before, v, k);
                            assert(is_line_of(after, v, k));
                        }
                        if v == ver {
                            assert(is_line_of(after, v, before.len() as int));
                        }
                        if infos_of(after).contains_key(v) && v != ver {
                            let k = choose|k: int| is_line_of(after, v, k);
                            assert(is_line_of(before, v, k));
                        }
                    }
                    assert forall|v: Version| infos_of(after).contains_key(v) implies infos_of(
                        after,
                    )[v] == infos_of(before).insert(ver, info@)[v] by {
                        let k = choose|k: int| is_line_of(after, v, k);
                        lemma_line(after, k);
                        if v != ver {
                            assert(is_line_of(before, v, k));
                            lemma_line(before, k);
                        }
                    }
                    assert(infos_of(after) =~= infos_of(before).insert(ver, info@));
                }
            },
        }
    }

    /// What the list says of `ver`.
    pub fn get(&self, ver: &Version) -> (info: Option<&FileInfo>)
        requires
            self.wf(),
        ensures
            match info {
                Some(info) => self@.contains_key(*ver) && info@ == self@[*ver],
                None => !self@.contains_key(*ver),
            },
    {
        match self.find(ver) {
            Some(i) => {
                proof {
                    lemma_line(self.entries@, i as int);
                }
                Some(&self.entries[i].info)
            },
            None => None,
        }
    }

    /// The digest that the list announces for `ver`.
    pub fn get_hash(&self, ver: &Version) -> (hash: Option<H256>)
        requires
            self.wf(),
        ensures
            hash == (if self@.contains_key(*ver) {
                Some(self@[*ver].1)
            } else {
                None
            }),
    {
        match self.get(ver) {
            Some(info) => Some(info.sha256),
            None => None,
        }
    }

    /// The versions that the list offers, each once.
    pub fn all_versions(&self) -> (list: Vec<Version>)
        requires
            self.wf(),
        ensures
            list@.no_duplicates(),
            list@.to_set() == self@.dom(),
    {
        let mut list: Vec<Version> = Vec::new();
        let mut i: usize = 0;
        while i < self.entries.len()
            invariant
                0 <= i <= self.entries@.len(),
                list@ == versions_of(self.entries@).subrange(0, i as int),
            decreases self.entries@.len() - i,
        {
            list.push(self.entries[i].version);
            assert(list@ =~= versions_of(self.entries@).subrange(0, i + 1));
            i = i + 1;
        }
        proof {
            assert(list@ =~= versions_of(self.entries@));
            lemma_count(self.entries@);
        }
        list
    }

    /// How many versions the list offers.
    pub fn len(&self) -> (n: usize)
        requires
            self.wf(),
        ensures
            self@.dom().finite(),
            n == self@.dom().len(),
    {
        proof {
            lemma_count(self.entries@);
        }
        self.entries.len()
    }

    /// Whether two lists say the same of the same versions.
    pub fn equals(&self, other: &Manifest) -> (r: bool)
        requires
            self.wf(),
            other.wf(),
        ensures
            r == (self@ == other@),
    {
        proof {
            lemma_count(self.entries@);
            lemma_count(other.entries@);
        }
        if self.entries.len() != other.entries.len() {
            return false;
        }
        let mut i: usize = 0;
        while i < self.entries.len()
            invariant
                0 <= i <= self.entries@.len(),
                self.wf(),
                other.wf(),
                forall|k: int|
                    0 <= k < i ==> other@.contains_key(self.entries@[k].version) && other@[self.entries@[k].version]
                        == self.entries@[k].info@,
            decreases self.entries@.len() - i,
        {
            let entry = &self.entries[i];
            proof {
                lemma_line(self.entries@, i as int);
            }
            let same = match other.get(&entry.version) {
                Some(info) => info.url == entry.info.url && info.sha256 == entry.info.sha256,
                None => false,
            };
            if !same {
                return false;
            }
            i = i + 1;
        }
        proof {
            assert(self@.dom().subset_of(other@.dom())) by {
                assert forall|v: Version| self@.contains_key(v) implies other@.contains_key(v) by {
                    let k = choose|k: int| is_line_of(self.entries@, v, k);
                    assert(other@.contains_key(self.entries@[k].version));
                }
            }
            vstd::set_lib::lemma_subset_equality(self@.dom(), other@.dom());
            assert forall|v: Version| self@.contains_key(v) implies self@[v] == other@[v] by {
                let k = choose|k: int| is_line_of(self.entries@, v, k);
                lemma_line(self.entries@, k);
                assert(other@[self.entries@[k].version] == self.entries@[k].info@);
            }
            assert(self@ =~= other@);
        }
        true
    }
}

impl Default for Manifest {
    fn default() -> (list: Manifest)
        ensures
            list.wf(),
            list@ == Map::<Version, (Seq<char>, H256)>::empty(),
    {
        Manifest::new()
    }
}

impl Snapshot for Manifest {
    open spec fn valid(&self) -> bool {
        self.wf()
    }

    open spec fn same(&self, other: &Self) -> bool {
        self@ == other@
    }

    open spec fn size(&self) -> nat {
        self@.dom().len()
    }

    fn same_as(&self, other: &Self) -> (r: bool) {
        self.equals(other)
    }

    fn len(&self) -> (n: usize) {
        Manifest::len(self)
    }
}

/// One build as the upstream's list writes it: the long form of its
/// version, the address of its binary and the digest of the binary in
/// hexadecimal.
#[derive(Clone, Debug, PartialEq, Eq)]
pub struct BuildLine {
    pub long_version: String,
    pub url: String,
    pub sha256: String,
}

/// The name of a version with the `v` in front that the list may leave out.
pub open spec fn with_v(name: Seq<char>) -> Seq<char> {
    if name.len() > 0 && name[0] == 'v' {
        name
    } else {
        seq!['v'] + name
    }
}

/// What a build says for the list: its version with where the binary is to
/// be had and its digest. A build whose version or digest cannot be read
/// says nothing.
pub open spec fn entry_of(line: BuildLine) -> Option<(Version, (Seq<char>, H256))> {
    match (Version::parsed(with_v(line.long_version@)), parsed_digest(line.sha256@)) {
        (Some(version), Some(sha256)) => Some((version, (line.url@, sha256))),
        _ => None,
    }
}

/// What the builds say together, the later over the earlier.
pub open spec fn manifest_of(lines: Seq<BuildLine>) -> Map<Version, (Seq<char>, H256)>
    decreases lines.len(),
{
    if lines.len() == 0 {
        Map::empty()
    } else {
        let before = manifest_of(lines.drop_last());
        match entry_of(lines.last()) {
            Some((version, info)) => before.insert(version, info),
            None => before,
        }
    }
}

/// The places of the builds that say nothing, in their order.
pub open spec fn skipped_of(lines: Seq<BuildLine>) -> Seq<usize>
    decreases lines.len(),
{
    if lines.len() == 0 {
        Seq::empty()
    } else {
        let before = skipped_of(lines.drop_last());
        if entry_of(lines.last()) is None {
            before.push((lines.len() - 1) as usize)
        } else {
            before
        }
    }
}

/// The name of a version with a `v` in front.
pub fn version_name(long_version: &str) -> (name: String)
    ensures
        name@ == with_v(long_version@),
{
    proof {
        reveal_strlit("v");
    }
    let n = long_version.unicode_len();
    if n > 0 && long_version.get_char(0) == 'v' {
        String::from_str(long_version)
    } else {
        let mut name = String::from_str("v");
        name.append(long_version);
        assert(name@ =~= seq!['v'] + long_version@);
        name
    }
}

/// Reads what one build says for the list.
pub fn read_build(line: &BuildLine) -> (entry: Option<ManifestEntry>)
    ensures
        match entry {
            Some(e) => entry_of(*line) == Some((e.version, e.info@)),
            None => entry_of(*line) is None,
        },
{
    let name = version_name(line.long_version.as_str());
    match Version::from_str(name.as_str()) {
        Ok(version) => match H256::from_hex(line.sha256.as_str()) {
            Some(sha256) => Some(
                ManifestEntry { version, info: FileInfo { url: line.url.clone(), sha256 } },
            ),
            None => None,
        },
        Err(_) => None,
    }
}

/// The list that the builds make, with the places of the builds that were
/// passed over because their version or digest cannot be read.
pub fn manifest_from_builds(lines: &Vec<BuildLine>) -> (r: (Manifest, Vec<usize>))
    ensures
        r.0.wf(),
        r.0@ == manifest_of(lines@),
        r.1@ == skipped_of(lines@),
{
    let mut list = Manifest::new();
    let mut skipped: Vec<usize> = Vec::new();
    let mut k: usize = 0;
    while k < lines.len()
        invariant
            0 <= k <= lines@.len(),
            list.wf(),
            list@ == manifest_of(lines@.subrange(0, k as int)),
            skipped@ == skipped_of(lines@.subrange(0, k as int)),
        decreases lines@.len() - k,
    {
        proof {
            assert(lines@.subrange(0, k + 1).drop_last() =~= lines@.subrange(0, k as int));
            assert(lines@.subrange(0, k + 1).last() == lines@[k as int]);
        }
        match read_build(&lines[k]) {
            Some(entry) => {
                list.insert(entry.version, entry.info);
            },
            None => {
                skipped.push(k);
            },
        }
        k = k + 1;
    }
    proof {
        assert(lines@.subrange(0, lines@.len() as int) =~= lines@);
    }
    (list, skipped)
}

/// What to download to fetch `ver`: what the list says of it. A version
/// that the list does not offer is not found.
pub fn plan_download(list: &Manifest, ver: &Version) -> (r: Result<FileInfo, FetchError>)
    requires
        list.wf(),
    ensures
        match r {
            Ok(info) => list@.contains_key(*ver) && info@ == list@[*ver],
            Err(e) => !list@.contains_key(*ver) && e == FetchError::NotFound(*ver),
        },
{
    match list.get(ver) {
        Some(info) => Ok(FileInfo { url: info.url.clone(), sha256: info.sha256 }),
        None => Err(FetchError::NotFound(*ver)),
    }
}

/// What an error says of a download that was answered with a status other
/// than 200.
pub open spec fn download_message(url: Seq<char>, status_code: u16) -> Seq<char> {
    "server returned non 200 status code while fetching "@ + url + ": "@ + decimal(
        status_code as nat,
    )
}

/// What a download came to, given the status and the body of the answer:
/// the body where the status is 200, else an error that names the status.
pub fn downloaded(url: &str, status_code: u16, body: Vec<u8>) -> (r: Result<Vec<u8>, FetchError>)
    ensures
        match r {
            Ok(bytes) => status_code == 200 && bytes == body,
            Err(e) => status_code != 200 && (e matches FetchError::Fetch(message) && message@
                == download_message(url@, status_code)),
        },
{
    if status_code == 200 {
        Ok(body)
    } else {
        let mut message = String::from_str("server returned non 200 status code while fetching ");
        message.append(url);
        message.append(": ");
        push_decimal(&mut message, status_code as u64);
        Err(FetchError::Fetch(message))
    }
}

} // verus!
