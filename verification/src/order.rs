//! The order of versions.
//!
//! Versions are ordered by semantic version first. Of two with the same
//! semantic version a nightly build comes before the release; two nightly
//! builds are ordered by their date; the commit prefix decides last.

use crate::version::{key_of, Version};
use std::cmp::Ordering;
use vstd::prelude::*;
use vstd::std_specs::cmp::PartialOrdSpecImpl;

verus! {

/// The order of two sequences of numbers of one length, from place `i` on, as
/// a sign: that of the first place where they differ, 0 where they agree.
pub open spec fn lex_sign(a: Seq<int>, b: Seq<int>, i: int) -> int
    decreases a.len() - i,
{
    if i < 0 || i >= a.len() || i >= b.len() {
        0
    } else if a[i] < b[i] {
        -1
    } else if a[i] > b[i] {
        1
    } else {
        lex_sign(a, b, i + 1)
    }
}

/// The order of two versions as a sign: -1 where `a` is the earlier, 1 where
/// it is the later, 0 where they are the same.
pub open spec fn version_sign(a: Version, b: Version) -> int {
    lex_sign(key_of(a), key_of(b), 0)
}

/// The order that a sign stands for.
pub open spec fn sign_order(sign: int) -> Ordering {
    if sign < 0 {
        Ordering::Less
    } else if sign > 0 {
        Ordering::Greater
    } else {
        Ordering::Equal
    }
}

/// A sign is -1, 0 or 1, and 0 exactly where the sequences agree from `i` on.
proof fn lemma_lex_equal(a: Seq<int>, b: Seq<int>, i: int)
    requires
        a.len() == b.len(),
        0 <= i,
    ensures
        -1 <= lex_sign(a, b, i) <= 1,
        lex_sign(a, b, i) == 0 <==> (forall|k: int| i <= k < a.len() ==> a[k] == b[k]),
    decreases a.len() - i,
{
    if i < a.len() {
        lemma_lex_equal(a, b, i + 1);
    }
}

/// Swapping the two sequences swaps the sign.
proof fn lemma_lex_swap(a: Seq<int>, b: Seq<int>, i: int)
    requires
        a.len() == b.len(),
        0 <= i,
    ensures
        lex_sign(a, b, i) == -lex_sign(b, a, i),
    decreases a.len() - i,
{
    if i < a.len() {
        lemma_lex_swap(a, b, i + 1);
    }
}

/// Not-later follows from not-later twice, and earlier where one of the two
/// is earlier.
proof fn lemma_lex_chain(a: Seq<int>, b: Seq<int>, c: Seq<int>, i: int)
    requires
        a.len() == b.len(),
        b.len() == c.len(),
        0 <= i,
        lex_sign(a, b, i) <= 0,
        lex_sign(b, c, i) <= 0,
    ensures
        lex_sign(a, c, i) <= 0,
        lex_sign(a, b, i) < 0 || lex_sign(b, c, i) < 0 ==> lex_sign(a, c, i) < 0,
    decreases a.len() - i,
{
    if i < a.len() {
        if a[i] == b[i] && b[i] == c[i] {
            lemma_lex_chain(a, b, c, i + 1);
        }
    }
}

/// Two versions are unordered exactly where they are the same version.
pub proof fn lemma_order_equal(a: Version, b: Version)
    ensures
        -1 <= version_sign(a, b) <= 1,
        version_sign(a, b) == 0 <==> a == b,
{
    lemma_lex_equal(key_of(a), key_of(b), 0);
    if version_sign(a, b) == 0 {
        let ka = key_of(a);
        let kb = key_of(b);
        assert(ka[0] == kb[0] && ka[1] == kb[1] && ka[2] == kb[2] && ka[3] == kb[3]);
        assert(ka[4] == kb[4] && ka[5] == kb[5] && ka[6] == kb[6]);
        assert(ka[7] == kb[7] && ka[8] == kb[8] && ka[9] == kb[9] && ka[10] == kb[10]);
        assert(a.commit_prefix() =~= b.commit_prefix());
    }
}

/// One version is before another exactly where the other is behind it.
pub proof fn lemma_order_swap(a: Version, b: Version)
    ensures
        version_sign(a, b) == -version_sign(b, a),
{
    lemma_lex_swap(key_of(a), key_of(b), 0);
}

/// What is before a version that is before a third is before the third.
pub proof fn lemma_order_transitive(a: Version, b: Version, c: Version)
    requires
        version_sign(a, b) < 0,
        version_sign(b, c) < 0,
    ensures
        version_sign(a, c) < 0,
{
    lemma_lex_chain(key_of(a), key_of(b), key_of(c), 0);
}

/// Of a release and a nightly build of one semantic version, the nightly
/// build is the earlier.
pub proof fn lemma_release_above_nightly(release: Version, nightly: Version)
    requires
        release is Release,
        nightly is Nightly,
        release.semver() == nightly.semver(),
    ensures
        version_sign(nightly, release) < 0,
        version_sign(release, nightly) > 0,
{
    reveal_with_fuel(lex_sign, 5);
}

/// A version with a smaller semantic version is the earlier, whatever else
/// the two hold.
pub proof fn lemma_semver_decides(a: Version, b: Version)
    requires
        a.semver().major < b.semver().major || (a.semver().major == b.semver().major && (
        a.semver().minor < b.semver().minor || (a.semver().minor == b.semver().minor
            && a.semver().patch < b.semver().patch))),
    ensures
        version_sign(a, b) < 0,
{
    reveal_with_fuel(lex_sign, 4);
}

/// The sign of the order of two versions.
fn sign_of(a: &Version, b: &Version) -> (sign: i8)
    ensures
        sign == version_sign(*a, *b),
{
    let ka = a.key();
    let kb = b.key();
    let mut i: usize = 0;
    while i < 11
        invariant
            0 <= i <= 11,
            forall|k: int| 0 <= k < 11 ==> ka[k] as int == #[trigger] key_of(*a)[k],
            forall|k: int| 0 <= k < 11 ==> kb[k] as int == #[trigger] key_of(*b)[k],
            key_of(*a).len() == 11,
            key_of(*b).len() == 11,
            version_sign(*a, *b) == lex_sign(key_of(*a), key_of(*b), i as int),
        decreases 11 - i,
    {
        if ka[i] < kb[i] {
            return -1;
        }
        if ka[i] > kb[i] {
            return 1;
        }
        i = i + 1;
    }
    0
}

impl Version {
    /// Orders two versions: by semantic version, then nightly build before
    /// release, then by date, then by commit prefix.
    pub fn compare(&self, other: &Version) -> (o: Ordering)
        ensures
            o == sign_order(version_sign(*self, *other)),
    {
        let sign = sign_of(self, other);
        if sign < 0 {
            Ordering::Less
        } else if sign > 0 {
            Ordering::Greater
        } else {
            Ordering::Equal
        }
    }
}

impl PartialOrd for Version {
    fn partial_cmp(&self, other: &Self) -> (o: Option<Ordering>) {
        Some(self.compare(other))
    }
}

impl PartialOrdSpecImpl for Version {
    open spec fn obeys_partial_cmp_spec() -> bool {
        true
    }

    open spec fn partial_cmp_spec(&self, other: &Self) -> Option<Ordering> {
        Some(sign_order(version_sign(*self, *other)))
    }
}

} // verus!
