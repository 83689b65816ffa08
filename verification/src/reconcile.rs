//! Taking over, at start, the compilers that a folder already holds.
//!
//! Each child of the folder whose name is the canonical text of a version is
//! a candidate; its binary is `solc` inside. A candidate is recorded where
//! the upstream announces a digest for its version and the file has that
//! digest. Everything else is left alone and reported.

use crate::download_cache::DownloadCache;
use crate::fetcher::{binary_path, save_plan, Fetcher, IoFailure};
use crate::hash::{check_hashsum, sha256, Mismatch, H256};
use crate::version::{lemma_parsed_injective, Version};
use vstd::prelude::*;
use vstd::string::*;

verus! {

/// A compiler found in the folder: its version and the path of its binary.
#[derive(Clone, Debug, PartialEq, Eq)]
pub struct LocalCompiler {
    pub version: Version,
    pub solc_path: String,
}

/// What became of a compiler found in the folder.
#[derive(Clone, Debug, PartialEq, Eq)]
pub enum Reconciled {
    /// The file has the announced digest and is now recorded.
    Installed,
    /// The file has the announced digest; a path was recorded before, and
    /// stays.
    Kept,
    /// The file does not have the announced digest.
    HashMismatch(Mismatch<H256>),
    /// The upstream announces no digest for the version.
    Unlisted,
}

/// A compiler found in the folder, with what became of it.
#[derive(Clone, Debug, PartialEq, Eq)]
pub struct ReconcileNote {
    pub version: Version,
    pub solc_path: String,
    pub outcome: Reconciled,
}

/// The compilers among the children `names` of `folder`, in the order of
/// the names: those whose name is the canonical text of a version.
pub open spec fn locals_of(folder: Seq<char>, names: Seq<String>) -> Seq<(Version, Seq<char>)>
    decreases names.len(),
{
    if names.len() == 0 {
        Seq::empty()
    } else {
        let before = locals_of(folder, names.drop_last());
        match Version::parsed(names.last()@) {
            Some(v) => before.push((v, binary_path(folder, v))),
            None => before,
        }
    }
}

/// Each compiler among the children of a folder has the version that the
/// name of one of the children is read as.
pub proof fn lemma_locals_named(folder: Seq<char>, names: Seq<String>, i: int)
    requires
        0 <= i < locals_of(folder, names).len(),
    ensures
        exists|k: int|
            0 <= k < names.len() && Version::parsed(#[trigger] names[k]@) == Some(
                locals_of(folder, names)[i].0,
            ),
    decreases names.len(),
{
    let before = locals_of(folder, names.drop_last());
    let last = names.len() - 1;
    if i < before.len() {
        lemma_locals_named(folder, names.drop_last(), i);
        let k = choose|k: int|
            0 <= k < names.drop_last().len() && Version::parsed(#[trigger] names.drop_last()[k]@)
                == Some(before[i].0);
        assert(names[k] == names.drop_last()[k]);
    } else {
        assert(Version::parsed(names[last]@) == Some(locals_of(folder, names)[i].0));
    }
}

/// Children with different names are compilers of different versions: no
/// version is found twice in a folder.
pub proof fn lemma_locals_distinct(folder: Seq<char>, names: Seq<String>, i: int, j: int)
    requires
        forall|a: int, b: int|
            0 <= a < names.len() && 0 <= b < names.len() && a != b ==> names[a]@ != names[b]@,
        0 <= i < j < locals_of(folder, names).len(),
    ensures
        locals_of(folder, names)[i].0 != locals_of(folder, names)[j].0,
    decreases names.len(),
{
    let init = names.drop_last();
    let before = locals_of(folder, init);
    let last = names.len() - 1;
    assert forall|a: int, b: int|
        0 <= a < init.len() && 0 <= b < init.len() && a != b implies init[a]@ != init[b]@ by {
        assert(init[a] == names[a] && init[b] == names[b]);
    }
    if j < before.len() {
        lemma_locals_distinct(folder, init, i, j);
    } else {
        lemma_locals_named(folder, init, i);
        let k = choose|k: int|
            0 <= k < init.len() && Version::parsed(#[trigger] init[k]@) == Some(before[i].0);
        assert(init[k] == names[k]);
        if before[i].0 == locals_of(folder, names)[j].0 {
            lemma_parsed_injective(names[k]@, names[last]@, before[i].0);
        }
    }
}

/// What a cache may have become by taking over compilers from `folder`:
/// what was recorded stays, and what is new is one of `locals`, at its path.
pub open spec fn taken_over(
    before: Map<Version, Seq<char>>,
    after: Map<Version, Seq<char>>,
    locals: Seq<(Version, Seq<char>)>,
) -> bool {
    &&& forall|v: Version| #[trigger]
        before.contains_key(v) ==> after.contains_key(v) && after[v] == before[v]
    &&& forall|v: Version| #[trigger]
        after.contains_key(v) && !before.contains_key(v) ==> locals.contains((v, after[v]))
}

/// Whether a note tells of the compiler `local` and fits the cache `after`.
pub open spec fn note_fits(
    note: ReconcileNote,
    local: (Version, Seq<char>),
    after: Map<Version, Seq<char>>,
) -> bool {
    &&& note.version == local.0
    &&& note.solc_path@ == local.1
    &&& (note.outcome is Installed ==> after.contains_key(local.0) && after[local.0] == local.1)
    &&& (note.outcome is Kept ==> after.contains_key(local.0))
}

/// Whether one of the first `count` notes says that `v` was recorded.
pub open spec fn noted_installed(notes: Seq<ReconcileNote>, count: int, v: Version) -> bool {
    exists|i: int| 0 <= i < count && i < notes.len() && #[trigger] notes[i].version == v
        && notes[i].outcome is Installed
}

/// Whether the notes tell exactly what was recorded: a version is in the
/// cache `after` where it was in the cache `before` or a note says that it
/// was recorded.
pub open spec fn installed_as_noted(
    before: Map<Version, Seq<char>>,
    after: Map<Version, Seq<char>>,
    notes: Seq<ReconcileNote>,
) -> bool {
    forall|v: Version| #[trigger]
        after.contains_key(v) <==> before.contains_key(v) || noted_installed(
            notes,
            notes.len() as int,
            v,
        )
}

/// Whether the note at place `i` fits what came before it: a compiler is
/// noted as installed only where its version was neither in the cache
/// `before` nor installed by an earlier note, and as kept only where it was
/// one of the two.
pub open spec fn note_in_turn(
    before: Map<Version, Seq<char>>,
    notes: Seq<ReconcileNote>,
    i: int,
) -> bool {
    let known = before.contains_key(notes[i].version) || noted_installed(
        notes,
        i,
        notes[i].version,
    );
    &&& (notes[i].outcome is Installed ==> !known)
    &&& (notes[i].outcome is Kept ==> known)
}

/// Whether `fetcher`, asked for the digest of `v`, may answer `answer`.
pub open spec fn announced<D: Fetcher>(fetcher: &D, v: Version, answer: Option<H256>) -> bool {
    call_ensures(D::get_hash, (fetcher, &v), answer)
}

/// Whether `read`, given the path `path`, may return `content`.
pub open spec fn was_read<R: Fn(&str) -> Result<Vec<u8>, IoFailure>>(
    read: R,
    path: Seq<char>,
    content: Result<Vec<u8>, IoFailure>,
) -> bool {
    exists|p: &str| p@ == path && #[trigger] read.ensures((p,), content)
}

/// Whether `outcome` is what the answers of `fetcher` and `read` come to
/// for the compiler of `version` at `path`. It is unlisted where the fetcher
/// announces no digest for its version. Else its file was read: it is
/// installed or kept where the file has the announced digest, and a
/// mismatch, which names the announced digest and that of the file, where it
/// has another.
pub open spec fn outcome_explained<D: Fetcher, R: Fn(&str) -> Result<Vec<u8>, IoFailure>>(
    fetcher: &D,
    read: R,
    version: Version,
    path: Seq<char>,
    outcome: Reconciled,
) -> bool {
    match outcome {
        Reconciled::Unlisted => announced(fetcher, version, None),
        Reconciled::HashMismatch(m) => announced(fetcher, version, Some(m.expected))
            && exists|content: Vec<u8>| #[trigger]
                was_read(read, path, Ok(content)) && m.found@ == sha256(content@) && sha256(
                    content@,
                ) != m.expected@,
        _ => exists|expected: H256, content: Vec<u8>|
            #![trigger announced(fetcher, version, Some(expected)), was_read(read, path, Ok(content))]
            announced(fetcher, version, Some(expected)) && was_read(read, path, Ok(content))
                && sha256(content@) == expected@,
    }
}

/// Whether a note says what the answers of `fetcher` and `read` come to for
/// its compiler.
pub open spec fn note_explained<D: Fetcher, R: Fn(&str) -> Result<Vec<u8>, IoFailure>>(
    fetcher: &D,
    read: R,
    note: ReconcileNote,
) -> bool {
    outcome_explained(fetcher, read, note.version, note.solc_path@, note.outcome)
}

/// Whether `failure` is what reading the file of one of the compilers
/// `locals` came to, for whose version `fetcher` announces a digest.
pub open spec fn read_failed<D: Fetcher, R: Fn(&str) -> Result<Vec<u8>, IoFailure>>(
    fetcher: &D,
    read: R,
    locals: Seq<(Version, Seq<char>)>,
    failure: IoFailure,
) -> bool {
    exists|i: int, expected: H256|
        #![trigger announced(fetcher, locals[i].0, Some(expected))]
        0 <= i < locals.len() && announced(fetcher, locals[i].0, Some(expected)) && was_read(
            read,
            locals[i].1,
            Err(failure),
        )
}

impl DownloadCache {
    /// Picks the compilers among the children of a folder.
    pub fn find_versions_in_dir(folder: &str, names: &Vec<String>) -> (found: Vec<LocalCompiler>)
        ensures
            found@.len() == locals_of(folder@, names@).len(),
            forall|i: int|
                0 <= i < found@.len() ==> (#[trigger] found@[i]).version == locals_of(
                    folder@,
                    names@,
                )[i].0 && found@[i].solc_path@ == locals_of(folder@, names@)[i].1,
    {
        let mut found: Vec<LocalCompiler> = Vec::new();
        let mut k: usize = 0;
        while k < names.len()
            invariant
                0 <= k <= names@.len(),
                found@.len() == locals_of(folder@, names@.subrange(0, k as int)).len(),
                forall|i: int|
                    0 <= i < found@.len() ==> (#[trigger] found@[i]).version == locals_of(
                        folder@,
                        names@.subrange(0, k as int),
                    )[i].0 && found@[i].solc_path@ == locals_of(
                        folder@,
                        names@.subrange(0, k as int),
                    )[i].1,
            decreases names@.len() - k,
        {
            proof {
                assert(names@.subrange(0, k + 1).drop_last() =~= names@.subrange(0, k as int));
                assert(names@.subrange(0, k + 1).last() == names@[k as int]);
            }
            match Version::from_str(names[k].as_str()) {
                Ok(version) => {
                    let plan = save_plan(folder, &version);
                    found.push(LocalCompiler { version, solc_path: plan.file });
                },
                Err(_) => {},
            }
            k = k + 1;
        }
        proof {
            assert(names@.subrange(0, names@.len() as int) =~= names@);
        }
        found
    }

    /// Takes over one compiler found in the folder, whose file holds
    /// `content` and should have the digest `expected`. It is recorded where
    /// the digest is right and nothing is recorded for its version.
    pub fn adopt(&mut self, local: &LocalCompiler, expected: H256, content: &[u8]) -> (r:
        Reconciled)
        requires
            old(self).wf(),
        ensures
            final(self).wf(),
            sha256(content@) == expected@ ==> (if old(self)@.contains_key(local.version) {
                final(self)@ == old(self)@ && r == Reconciled::Kept
            } else {
                final(self)@ == old(self)@.insert(local.version, local.solc_path@) && r
                    == Reconciled::Installed
            }),
            sha256(content@) != expected@ ==> final(self)@ == old(self)@ && (match r {
                Reconciled::HashMismatch(m) => m.expected == expected && m.found@ == sha256(
                    content@,
                ),
                _ => false,
            }),
    {
        match check_hashsum(content, expected) {
            Ok(_) => {
                if self.install(&local.version, local.solc_path.clone()) {
                    Reconciled::Installed
                } else {
                    Reconciled::Kept
                }
            },
            Err(mismatch) => Reconciled::HashMismatch(mismatch),
        }
    }

    /// Takes over the compilers that `folder` holds. `names` are the names
    /// of its children and `read` reads a file. For each compiler among them
    /// `fetcher` is asked for the digest of its version; only where it
    /// announces one is the file read and held against it. A file that
    /// cannot be read ends the pass with its failure; what was recorded up
    /// to then stays.
    pub fn load_from_dir<D: Fetcher, R: Fn(&str) -> Result<Vec<u8>, IoFailure>>(
        &mut self,
        fetcher: &D,
        folder: &str,
        names: &Vec<String>,
        read: R,
    ) -> (r: Result<Vec<ReconcileNote>, IoFailure>)
        requires
            old(self).wf(),
            forall|path: &str| read.requires((path,)),
        ensures
            final(self).wf(),
            taken_over(old(self)@, final(self)@, locals_of(folder@, names@)),
            match r {
                Ok(notes) => notes@.len() == locals_of(folder@, names@).len() && (forall|i: int|
                    0 <= i < notes@.len() ==> note_fits(
                        #[trigger] notes@[i],
                        locals_of(folder@, names@)[i],
                        final(self)@,
                    )) && installed_as_noted(old(self)@, final(self)@, notes@) && (forall|i: int|
                    0 <= i < notes@.len() ==> note_explained(fetcher, read, #[trigger] notes@[i]))
                    && (forall|i: int|
                    0 <= i < notes@.len() ==> #[trigger] note_in_turn(old(self)@, notes@, i)),
                Err(failure) => read_failed(fetcher, read, locals_of(folder@, names@), failure),
            },
    {
        let found = DownloadCache::find_versions_in_dir(folder, names);
        let ghost locals = locals_of(folder@, names@);
        let mut notes: Vec<ReconcileNote> = Vec::new();
        let mut k: usize = 0;
        while k < found.len()
            invariant
                0 <= k <= found@.len(),
                self.wf(),
                locals == locals_of(folder@, names@),
                found@.len() == locals.len(),
                forall|i: int|
                    0 <= i < found@.len() ==> (#[trigger] found@[i]).version == locals[i].0
                        && found@[i].solc_path@ == locals[i].1,
                forall|path: &str| read.requires((path,)),
                taken_over(old(self)@, self@, locals),
                notes@.len() == k,
                forall|i: int| 0 <= i < k ==> note_fits(#[trigger] notes@[i], locals[i], self@),
                installed_as_noted(old(self)@, self@, notes@),
                forall|i: int| 0 <= i < k ==> note_explained(fetcher, read, #[trigger] notes@[i]),
                forall|i: int| 0 <= i < k ==> #[trigger] note_in_turn(old(self)@, notes@, i),
            decreases found@.len() - k,
        {
            let local = &found[k];
            let ghost before = self@;
            proof {
                assert(locals[k as int] == (local.version, local.solc_path@));
                assert(locals.contains((local.version, local.solc_path@)));
            }
            let answer = fetcher.get_hash(&local.version);
            assert(announced(fetcher, local.version, answer));
            let outcome = match answer {
                Some(expected) => {
                    let file = read(local.solc_path.as_str());
                    assert(was_read(read, local.solc_path@, file));
                    let content = match file {
                        Ok(content) => content,
                        Err(failure) => {
                            assert(announced(fetcher, locals[k as int].0, Some(expected)));
                            return Err(failure);
                        },
                    };
                    let outcome = self.adopt(local, expected, content.as_slice());
                    proof {
                        assert(was_read(read, local.solc_path@, Ok(content)));
                        assert(announced(fetcher, local.version, Some(expected)));
                        assert(outcome_explained(
                            fetcher,
                            read,
                            local.version,
                            local.solc_path@,
                            outcome,
                        ));
                    }
                    outcome
                },
                None => Reconciled::Unlisted,
            };
            assert(outcome_explained(fetcher, read, local.version, local.solc_path@, outcome));
            let note = ReconcileNote {
                version: local.version,
                solc_path: local.solc_path.clone(),
                outcome,
            };
            assert(note_explained(fetcher, read, note));
            let ghost earlier = notes@;
            notes.push(note);
            proof {
                assert forall|i: int| 0 <= i < notes@.len() implies #[trigger] note_in_turn(
                    old(self)@,
                    notes@,
                    i,
                ) by {
                    let v = notes@[i].version;
                    if noted_installed(notes@, i, v) {
                        let j = choose|j: int|
                            0 <= j < i && j < notes@.len() && #[trigger] notes@[j].version == v
                                && notes@[j].outcome is Installed;
                        assert(earlier[j] == notes@[j]);
                    }
                    if noted_installed(earlier, i, v) {
                        let j = choose|j: int|
                            0 <= j < i && j < earlier.len() && #[trigger] earlier[j].version == v
                                && earlier[j].outcome is Installed;
                        assert(earlier[j] == notes@[j]);
                    }
                    if i < earlier.len() {
                        assert(notes@[i] == earlier[i]);
                        assert(note_in_turn(old(self)@, earlier, i));
                    } else {
                        assert(notes@[i] == note);
                        assert(before.contains_key(v) <==> old(self)@.contains_key(v)
                            || noted_installed(earlier, earlier.len() as int, v));
                    }
                }
                assert forall|i: int| 0 <= i < notes@.len() implies note_explained(
                    fetcher,
                    read,
                    #[trigger] notes@[i],
                ) by {
                    if i < earlier.len() {
                        assert(notes@[i] == earlier[i]);
                    }
                }
                assert forall|v: Version| #[trigger]
                    self@.contains_key(v) <==> old(self)@.contains_key(v) || noted_installed(
                        notes@,
                        notes@.len() as int,
                        v,
                    ) by {
                    if noted_installed(earlier, earlier.len() as int, v) {
                        let i = choose|i: int|
                            0 <= i < earlier.len() && #[trigger] earlier[i].version == v
                                && earlier[i].outcome is Installed;
                        assert(notes@[i] == earlier[i]);
                    }
                    if noted_installed(notes@, notes@.len() as int, v) {
                        let i = choose|i: int|
                            0 <= i < notes@.len() && #[trigger] notes@[i].version == v
                                && notes@[i].outcome is Installed;
                        if i < earlier.len() {
                            assert(notes@[i] == earlier[i]);
                        }
                    }
                    if v == note.version && note.outcome is Installed {
                        assert(notes@[k as int] == note);
                    }
                }
            }
            k = k + 1;
        }
        Ok(notes)
    }
}

} // verus!
