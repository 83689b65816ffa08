//! Compiler versions and their canonical text.
//!
//! A release is written `v<major>.<minor>.<patch>+commit.<8 hex digits>`, a
//! nightly build `v<major>.<minor>.<patch>-nightly.<year>.<month>.<day>+commit.<8 hex digits>`.
//! Numbers are written without leading zeros, the year with four digits, the
//! commit prefix in lower case.

use crate::digits::{decimal, digit_char, hex_byte, push_decimal, push_hex_byte};
use crate::grammar::{lemma_canonical_reads, lemma_reads_canonical, lemma_reads_one, read_version};
use vstd::prelude::*;
use vstd::std_specs::cmp::PartialEqSpecImpl;
use vstd::string::*;

verus! {

/// The three numbers of a semantic version.
#[derive(Clone, Copy, Debug, PartialEq, Eq, Hash, Structural)]
pub struct SemVer {
    pub major: u64,
    pub minor: u64,
    pub patch: u64,
}

/// A day of the proleptic Gregorian calendar, in the years 0 to 9999.
#[derive(Clone, Copy, Debug, PartialEq, Eq, Hash, Structural)]
pub struct Date {
    pub year: u16,
    pub month: u8,
    pub day: u8,
}

/// A released compiler: its semantic version and the first four bytes of the
/// commit it was built from.
#[derive(Clone, Copy, Debug, Eq, Hash)]
pub struct ReleaseVersion {
    pub version: SemVer,
    pub commit: [u8; 4],
}

/// A nightly build: semantic version, day of the build and commit prefix.
#[derive(Clone, Copy, Debug, Eq, Hash)]
pub struct NightlyVersion {
    pub version: SemVer,
    pub date: Date,
    pub commit: [u8; 4],
}

/// The identifier of one compiler build.
#[derive(Clone, Copy, Debug, Eq, Hash)]
pub enum Version {
    Release(ReleaseVersion),
    Nightly(NightlyVersion),
}

/// Whether two commit prefixes hold the same four bytes.
fn same_commit(a: &[u8; 4], b: &[u8; 4]) -> (r: bool)
    ensures
        r == (*a == *b),
{
    let r = a[0] == b[0] && a[1] == b[1] && a[2] == b[2] && a[3] == b[3];
    proof {
        if r {
            assert(*a =~= *b);
        }
    }
    r
}

impl PartialEq for ReleaseVersion {
    fn eq(&self, other: &Self) -> (r: bool) {
        self.version == other.version && same_commit(&self.commit, &other.commit)
    }
}

impl PartialEqSpecImpl for ReleaseVersion {
    open spec fn obeys_eq_spec() -> bool {
        true
    }

    open spec fn eq_spec(&self, other: &Self) -> bool {
        *self == *other
    }
}

impl PartialEq for NightlyVersion {
    fn eq(&self, other: &Self) -> (r: bool) {
        self.version == other.version && self.date == other.date && same_commit(
            &self.commit,
            &other.commit,
        )
    }
}

impl PartialEqSpecImpl for NightlyVersion {
    open spec fn obeys_eq_spec() -> bool {
        true
    }

    open spec fn eq_spec(&self, other: &Self) -> bool {
        *self == *other
    }
}

impl PartialEq for Version {
    fn eq(&self, other: &Self) -> (r: bool) {
        match (self, other) {
            (Version::Release(a), Version::Release(b)) => a == b,
            (Version::Nightly(a), Version::Nightly(b)) => a == b,
            _ => false,
        }
    }
}

impl PartialEqSpecImpl for Version {
    open spec fn obeys_eq_spec() -> bool {
        true
    }

    open spec fn eq_spec(&self, other: &Self) -> bool {
        *self == *other
    }
}

/// The text `+commit.` that stands before the commit prefix.
pub open spec fn commit_mark() -> Seq<char> {
    seq!['+', 'c', 'o', 'm', 'm', 'i', 't', '.']
}

/// The text `-nightly.` that stands before the date of a nightly build.
pub open spec fn nightly_mark() -> Seq<char> {
    seq!['-', 'n', 'i', 'g', 'h', 't', 'l', 'y', '.']
}

/// The eight hexadecimal digits of a commit prefix.
pub open spec fn commit_text(commit: [u8; 4]) -> Seq<char> {
    hex_byte(commit[0]) + hex_byte(commit[1]) + hex_byte(commit[2]) + hex_byte(commit[3])
}

/// Whether `year` is a leap year of the Gregorian calendar.
pub open spec fn is_leap_year(year: int) -> bool {
    (year % 4 == 0 && year % 100 != 0) || year % 400 == 0
}

/// The number of days of a month; 0 where `month` is none.
pub open spec fn days_in_month(year: int, month: int) -> int {
    if month == 2 {
        if is_leap_year(year) {
            29
        } else {
            28
        }
    } else if month == 4 || month == 6 || month == 9 || month == 11 {
        30
    } else if 1 <= month <= 12 {
        31
    } else {
        0
    }
}

/// The four digits of a year, zeros in front where it is below 1000.
pub open spec fn year_text(year: int) -> Seq<char> {
    seq![
        digit_char(year / 1000),
        digit_char(year / 100 % 10),
        digit_char(year / 10 % 10),
        digit_char(year % 10),
    ]
}

impl SemVer {
    /// The semantic version of the three numbers.
    pub fn new(major: u64, minor: u64, patch: u64) -> (v: SemVer)
        ensures
            v == (SemVer { major, minor, patch }),
    {
        SemVer { major, minor, patch }
    }

    /// The three numbers, with a dot between them.
    pub open spec fn text(self) -> Seq<char> {
        decimal(self.major as nat) + seq!['.'] + decimal(self.minor as nat) + seq!['.'] + decimal(
            self.patch as nat,
        )
    }
}

impl Date {
    /// Whether this is a day that exists, in a year of four digits.
    pub open spec fn wf(self) -> bool {
        &&& self.year <= 9999
        &&& 1 <= self.month <= 12
        &&& 1 <= self.day <= days_in_month(self.year as int, self.month as int)
    }

    /// Year, month and day, with a dot between them.
    pub open spec fn text(self) -> Seq<char> {
        year_text(self.year as int) + seq!['.'] + decimal(self.month as nat) + seq!['.']
            + decimal(self.day as nat)
    }

    /// Whether the three numbers name a day that exists.
    pub fn is_valid(&self) -> (r: bool)
        ensures
            r == self.wf(),
    {
        if self.year > 9999 || self.month < 1 || self.month > 12 || self.day < 1 {
            return false;
        }
        let year = self.year;
        let leap = (year % 4 == 0 && year % 100 != 0) || year % 400 == 0;
        let days: u8 = if self.month == 2 {
            if leap {
                29
            } else {
                28
            }
        } else if self.month == 4 || self.month == 6 || self.month == 9 || self.month == 11 {
            30
        } else {
            31
        };
        self.day <= days
    }
}

impl Version {
    /// Whether the version can be written: a release always, a nightly build
    /// where its date exists.
    pub open spec fn wf(self) -> bool {
        match self {
            Version::Release(_) => true,
            Version::Nightly(n) => n.date.wf(),
        }
    }

    /// The semantic version.
    pub open spec fn semver(self) -> SemVer {
        match self {
            Version::Release(r) => r.version,
            Version::Nightly(n) => n.version,
        }
    }

    /// The commit prefix.
    pub open spec fn commit_prefix(self) -> [u8; 4] {
        match self {
            Version::Release(r) => r.commit,
            Version::Nightly(n) => n.commit,
        }
    }

    /// The canonical text of the version.
    pub open spec fn canonical(self) -> Seq<char> {
        match self {
            Version::Release(r) => seq!['v'] + r.version.text() + commit_mark() + commit_text(
                r.commit,
            ),
            Version::Nightly(n) => seq!['v'] + n.version.text() + nightly_mark() + n.date.text()
                + commit_mark() + commit_text(n.commit),
        }
    }

    /// The version that `s` is the canonical text of, if there is one.
    pub open spec fn parsed(s: Seq<char>) -> Option<Version> {
        if exists|v: Version| v.wf() && v.canonical() == s {
            Some(choose|v: Version| v.wf() && v.canonical() == s)
        } else {
            None
        }
    }

    /// Whether the version can be written.
    pub fn is_valid(&self) -> (r: bool)
        ensures
            r == self.wf(),
    {
        match self {
            Version::Release(_) => true,
            Version::Nightly(n) => n.date.is_valid(),
        }
    }

    /// The semantic version.
    pub fn version(&self) -> (v: SemVer)
        ensures
            v == self.semver(),
    {
        match self {
            Version::Release(r) => r.version,
            Version::Nightly(n) => n.version,
        }
    }

    /// The date of a nightly build; a release has none.
    pub fn date(&self) -> (d: Option<Date>)
        ensures
            d == (match *self {
                Version::Release(_) => None,
                Version::Nightly(n) => Some(n.date),
            }),
    {
        match self {
            Version::Release(_) => None,
            Version::Nightly(n) => Some(n.date),
        }
    }

    /// The commit prefix.
    pub fn commit(&self) -> (c: [u8; 4])
        ensures
            c == self.commit_prefix(),
    {
        match self {
            Version::Release(r) => r.commit,
            Version::Nightly(n) => n.commit,
        }
    }
}

/// Appends the three numbers of `v`, with dots between them.
fn push_semver(out: &mut String, v: &SemVer)
    ensures
        final(out)@ == old(out)@ + v.text(),
{
    proof {
        reveal_strlit(".");
    }
    push_decimal(out, v.major);
    out.append(".");
    push_decimal(out, v.minor);
    out.append(".");
    push_decimal(out, v.patch);
    assert(final(out)@ =~= old(out)@ + v.text());
}

/// Appends `+commit.` and the eight digits of the commit prefix.
fn push_commit(out: &mut String, commit: &[u8; 4])
    ensures
        final(out)@ == old(out)@ + commit_mark() + commit_text(*commit),
{
    proof {
        reveal_strlit("+commit.");
    }
    out.append("+commit.");
    assert(out@ =~= old(out)@ + commit_mark());
    push_hex_byte(out, commit[0]);
    push_hex_byte(out, commit[1]);
    push_hex_byte(out, commit[2]);
    push_hex_byte(out, commit[3]);
    assert(final(out)@ =~= old(out)@ + commit_mark() + commit_text(*commit));
}

/// Appends the year in four digits, the month and the day.
fn push_date(out: &mut String, date: &Date)
    requires
        date.year <= 9999,
    ensures
        final(out)@ == old(out)@ + date.text(),
{
    proof {
        reveal_strlit(".");
    }
    let year: u64 = date.year as u64;
    push_decimal(out, year / 1000);
    push_decimal(out, year / 100 % 10);
    push_decimal(out, year / 10 % 10);
    push_decimal(out, year % 10);
    assert(out@ =~= old(out)@ + year_text(date.year as int));
    out.append(".");
    push_decimal(out, date.month as u64);
    out.append(".");
    push_decimal(out, date.day as u64);
    assert(final(out)@ =~= old(out)@ + date.text());
}

impl Version {
    /// Writes the version in its canonical text.
    pub fn to_string(&self) -> (s: String)
        requires
            self.wf(),
        ensures
            s@ == self.canonical(),
    {
        proof {
            reveal_strlit("v");
            reveal_strlit("-nightly.");
        }
        let mut out = String::from_str("v");
        assert(out@ =~= seq!['v']);
        match self {
            Version::Release(r) => {
                push_semver(&mut out, &r.version);
                push_commit(&mut out, &r.commit);
                assert(out@ =~= self.canonical());
            },
            Version::Nightly(n) => {
                push_semver(&mut out, &n.version);
                out.append("-nightly.");
                assert(out@ =~= seq!['v'] + n.version.text() + nightly_mark());
                push_date(&mut out, &n.date);
                push_commit(&mut out, &n.commit);
                assert(out@ =~= self.canonical());
            },
        }
        out
    }
}

/// The numbers by which versions are ordered, the weightiest first: the
/// semantic version; 0 for a nightly build and 1 for a release; year, month
/// and day, 0 for a release; the four bytes of the commit prefix.
pub open spec fn key_of(v: Version) -> Seq<int> {
    match v {
        Version::Release(r) => seq![
            r.version.major as int,
            r.version.minor as int,
            r.version.patch as int,
            1,
            0,
            0,
            0,
            r.commit[0] as int,
            r.commit[1] as int,
            r.commit[2] as int,
            r.commit[3] as int,
        ],
        Version::Nightly(n) => seq![
            n.version.major as int,
            n.version.minor as int,
            n.version.patch as int,
            0,
            n.date.year as int,
            n.date.month as int,
            n.date.day as int,
            n.commit[0] as int,
            n.commit[1] as int,
            n.commit[2] as int,
            n.commit[3] as int,
        ],
    }
}

impl Version {
    /// The numbers by which versions are ordered.
    pub fn key(&self) -> (k: [u64; 11])
        ensures
            key_of(*self).len() == 11,
            forall|i: int| 0 <= i < 11 ==> k[i] as int == #[trigger] key_of(*self)[i],
    {
        match self {
            Version::Release(r) => [
                r.version.major,
                r.version.minor,
                r.version.patch,
                1,
                0,
                0,
                0,
                r.commit[0] as u64,
                r.commit[1] as u64,
                r.commit[2] as u64,
                r.commit[3] as u64,
            ],
            Version::Nightly(n) => [
                n.version.major,
                n.version.minor,
                n.version.patch,
                0,
                n.date.year as u64,
                n.date.month as u64,
                n.date.day as u64,
                n.commit[0] as u64,
                n.commit[1] as u64,
                n.commit[2] as u64,
                n.commit[3] as u64,
            ],
        }
    }
}

/// What the reader answers to a text that is the canonical text of no
/// version.
#[derive(Clone, Copy, Debug, PartialEq, Eq, Structural)]
pub struct ParseError {}

impl Version {
    /// Reads a version from its canonical text. Every other text is refused:
    /// one with other separators, leading zeros, upper-case or too few
    /// hexadecimal digits, a date that does not exist, anything behind it.
    pub fn from_str(s: &str) -> (r: Result<Version, ParseError>)
        ensures
            match r {
                Ok(v) => Version::parsed(s@) == Some(v),
                Err(_) => Version::parsed(s@) is None,
            },
    {
        match read_version(s) {
            Some(v) => {
                proof {
                    lemma_reads_canonical(s@, v);
                    lemma_parse_format(v);
                }
                Ok(v)
            },
            None => {
                proof {
                    assert forall|v: Version| v.wf() implies v.canonical() != s@ by {
                        lemma_canonical_reads(v);
                    }
                }
                Err(ParseError {  })
            },
        }
    }
}

/// Two versions with the same canonical text are the same version.
pub proof fn lemma_canonical_injective(a: Version, b: Version)
    requires
        a.wf(),
        b.wf(),
        a.canonical() == b.canonical(),
    ensures
        a == b,
{
    lemma_canonical_reads(a);
    lemma_canonical_reads(b);
    lemma_reads_one(a.canonical(), a, b);
}

/// Reading what was written gives the version back: the canonical text of a
/// version that can be written is read as that version.
pub proof fn lemma_parse_format(v: Version)
    requires
        v.wf(),
    ensures
        Version::parsed(v.canonical()) == Some(v),
{
    let s = v.canonical();
    let found = choose|w: Version| w.wf() && w.canonical() == s;
    lemma_canonical_injective(found, v);
}

/// Two texts that are read as the same version are the same text.
pub proof fn lemma_parsed_injective(a: Seq<char>, b: Seq<char>, v: Version)
    requires
        Version::parsed(a) == Some(v),
        Version::parsed(b) == Some(v),
    ensures
        a == b,
{
}

/// Writing what was read gives the text back: a text is read as a version
/// only where it is the canonical text of that version.
pub proof fn lemma_format_parse(s: Seq<char>, v: Version)
    requires
        Version::parsed(s) == Some(v),
    ensures
        v.wf(),
        v.canonical() == s,
{
}

} // verus!
