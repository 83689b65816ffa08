//! Reading a version out of its canonical text.
//!
//! `reads_as` says, field by field, what a text must hold to be read as a
//! given version. It holds of a text and a version exactly where the text is
//! the canonical one of the version, which is what the two directions below
//! prove; the reader follows it.

use crate::digits::{
    byte_of_hex, decimal, digit_value, has_word, hex_byte, is_digit, is_hex, lemma_byte_of_hex,
    lemma_decimal_is_decimal, lemma_digit_char_value, lemma_digit_value_char, lemma_hex_byte,
    lemma_number_at, lemma_number_at_text, number_at, read_decimal, read_hex_byte,
    small_number_at, text_len, word_at,
};
use crate::version::{
    commit_mark, commit_text, nightly_mark, year_text, Date, NightlyVersion, ReleaseVersion,
    SemVer, Version,
};
use vstd::arithmetic::div_mod::lemma_fundamental_div_mod_converse;
use vstd::prelude::*;
use vstd::string::*;
use vstd::utf8::{is_ascii_chars, is_ascii_chars_concat};

verus! {

/// The text of one dot.
pub open spec fn dot() -> Seq<char> {
    seq!['.']
}

/// The semantic version written at `pos`, with the position behind it.
pub open spec fn semver_at(s: Seq<char>, pos: int) -> Option<(SemVer, int)> {
    match small_number_at(s, pos) {
        Some((major, dot_a)) => if word_at(s, dot_a, dot()) {
            match small_number_at(s, dot_a + 1) {
                Some((minor, dot_b)) => if word_at(s, dot_b, dot()) {
                    match small_number_at(s, dot_b + 1) {
                        Some((patch, stop)) => Some((SemVer { major, minor, patch }, stop)),
                        None => None,
                    }
                } else {
                    None
                },
                None => None,
            }
        } else {
            None
        },
        None => None,
    }
}

/// The year written in the four digits at `pos`.
pub open spec fn year_at(s: Seq<char>, pos: int) -> Option<int> {
    if 0 <= pos && pos + 4 <= s.len() && is_digit(s[pos]) && is_digit(s[pos + 1]) && is_digit(
        s[pos + 2],
    ) && is_digit(s[pos + 3]) {
        Some(
            digit_value(s[pos]) * 1000 + digit_value(s[pos + 1]) * 100 + digit_value(s[pos + 2])
                * 10 + digit_value(s[pos + 3]),
        )
    } else {
        None
    }
}

/// The date written at `pos`, with the position behind it.
pub open spec fn date_at(s: Seq<char>, pos: int) -> Option<(Date, int)> {
    match year_at(s, pos) {
        Some(year) => if word_at(s, pos + 4, dot()) {
            match small_number_at(s, pos + 5) {
                Some((month, dot_a)) => if word_at(s, dot_a, dot()) {
                    match small_number_at(s, dot_a + 1) {
                        Some((day, dot_b)) => {
                            let date = Date {
                                year: year as u16,
                                month: month as u8,
                                day: day as u8,
                            };
                            if month <= 12 && day <= 31 && date.wf() {
                                Some((date, dot_b))
                            } else {
                                None
                            }
                        },
                        None => None,
                    }
                } else {
                    None
                },
                None => None,
            }
        } else {
            None
        },
        None => None,
    }
}

/// Whether the eight characters at `pos` are the hexadecimal text of `commit`.
pub open spec fn commit_at(s: Seq<char>, pos: int, commit: [u8; 4]) -> bool {
    &&& 0 <= pos
    &&& pos + 8 <= s.len()
    &&& forall|i: int| pos <= i < pos + 8 ==> is_hex(#[trigger] s[i])
    &&& commit[0] == byte_of_hex(s[pos], s[pos + 1])
    &&& commit[1] == byte_of_hex(s[pos + 2], s[pos + 3])
    &&& commit[2] == byte_of_hex(s[pos + 4], s[pos + 5])
    &&& commit[3] == byte_of_hex(s[pos + 6], s[pos + 7])
}

/// Whether `+commit.` and the text of `commit` stand at `pos` and end the text.
pub open spec fn commit_ends(s: Seq<char>, pos: int, commit: [u8; 4]) -> bool {
    &&& word_at(s, pos, commit_mark())
    &&& commit_at(s, pos + 8, commit)
    &&& s.len() == pos + 16
}

/// Whether `s` holds, field by field, the canonical text of `v`.
pub open spec fn reads_as(s: Seq<char>, v: Version) -> bool {
    &&& word_at(s, 0, seq!['v'])
    &&& match semver_at(s, 1) {
        Some((semver, p)) => semver == v.semver() && match v {
            Version::Release(r) => commit_ends(s, p, r.commit),
            Version::Nightly(n) => word_at(s, p, nightly_mark()) && match date_at(s, p + 9) {
                Some((date, q)) => date == n.date && commit_ends(s, q, n.commit),
                None => false,
            },
        },
        None => false,
    }
}

/// A text that holds `part` from `pos` on holds each character of it.
proof fn lemma_part_index(s: Seq<char>, pos: int, part: Seq<char>)
    requires
        0 <= pos,
        pos + part.len() <= s.len(),
        s.subrange(pos, pos + part.len()) == part,
    ensures
        forall|k: int| 0 <= k < part.len() ==> s[pos + k] == #[trigger] part[k],
{
    assert forall|k: int| 0 <= k < part.len() implies s[pos + k] == #[trigger] part[k] by {
        assert(s.subrange(pos, pos + part.len())[k] == s[pos + k]);
    }
}

/// A text that holds `whole` from `pos` on holds, at its place, each piece
/// that `whole` holds.
proof fn lemma_part_of_part(s: Seq<char>, pos: int, whole: Seq<char>, from: int, to: int)
    requires
        0 <= pos,
        pos + whole.len() <= s.len(),
        s.subrange(pos, pos + whole.len()) == whole,
        0 <= from <= to <= whole.len(),
    ensures
        s.subrange(pos + from, pos + to) == whole.subrange(from, to),
{
    lemma_part_index(s, pos, whole);
    assert(s.subrange(pos + from, pos + to) =~= whole.subrange(from, to));
}

/// The canonical text of a number, followed by a dot or by nothing a digit
/// could continue, is read as that number.
proof fn lemma_small_number_at(s: Seq<char>, pos: int, n: u64)
    requires
        0 <= pos,
        pos + decimal(n as nat).len() <= s.len(),
        s.subrange(pos, pos + decimal(n as nat).len()) == decimal(n as nat),
        pos + decimal(n as nat).len() == s.len() || !is_digit(s[pos + decimal(n as nat).len()]),
    ensures
        small_number_at(s, pos) == Some((n, pos + decimal(n as nat).len())),
{
    lemma_number_at(s, pos, n as nat);
}

/// What is read as a number is the canonical text of that number, and no
/// digit follows it.
proof fn lemma_small_number_text(s: Seq<char>, pos: int, n: u64, end: int)
    requires
        small_number_at(s, pos) == Some((n, end)),
    ensures
        0 <= pos < end <= s.len(),
        s.subrange(pos, end) == decimal(n as nat),
        end == s.len() || !is_digit(s[end]),
{
    let found = number_at(s, pos)->0;
    lemma_number_at_text(s, pos, found.0, found.1);
}

/// The text of a semantic version, with no digit behind it, is read as that
/// semantic version.
pub proof fn lemma_semver_at(s: Seq<char>, pos: int, v: SemVer)
    requires
        0 <= pos,
        pos + v.text().len() <= s.len(),
        s.subrange(pos, pos + v.text().len()) == v.text(),
        pos + v.text().len() == s.len() || !is_digit(s[pos + v.text().len()]),
    ensures
        semver_at(s, pos) == Some((v, pos + v.text().len())),
{
    let a = decimal(v.major as nat);
    let b = decimal(v.minor as nat);
    let c = decimal(v.patch as nat);
    let t = v.text();
    let la = a.len() as int;
    let lb = b.len() as int;
    let lc = c.len() as int;
    let dot_a = pos + la;
    let dot_b = dot_a + 1 + lb;
    assert(t.len() == la + lb + lc + 2);
    lemma_part_index(s, pos, t);
    assert(t.subrange(0, la) =~= a);
    assert(t[la] == '.');
    assert(t.subrange(la + 1, la + 1 + lb) =~= b);
    assert(t[la + 1 + lb] == '.');
    assert(t.subrange(la + lb + 2, t.len() as int) =~= c);
    lemma_part_of_part(s, pos, t, 0, la);
    lemma_part_of_part(s, pos, t, la + 1, la + 1 + lb);
    lemma_part_of_part(s, pos, t, la + lb + 2, t.len() as int);
    assert(s[dot_a] == '.');
    assert(s[dot_b] == '.');
    lemma_small_number_at(s, pos, v.major);
    lemma_small_number_at(s, dot_a + 1, v.minor);
    lemma_small_number_at(s, dot_b + 1, v.patch);
    assert(s.subrange(dot_a, dot_a + 1) =~= dot());
    assert(s.subrange(dot_b, dot_b + 1) =~= dot());
}

/// What is read as a semantic version is the text of that version, and no
/// digit follows it.
pub proof fn lemma_semver_text(s: Seq<char>, pos: int, v: SemVer, end: int)
    requires
        semver_at(s, pos) == Some((v, end)),
    ensures
        0 <= pos < end <= s.len(),
        s.subrange(pos, end) == v.text(),
        end == s.len() || !is_digit(s[end]),
{
    let first = small_number_at(s, pos)->0;
    let dot_a = first.1;
    let second = small_number_at(s, dot_a + 1)->0;
    let dot_b = second.1;
    let third = small_number_at(s, dot_b + 1)->0;
    lemma_small_number_text(s, pos, first.0, dot_a);
    lemma_small_number_text(s, dot_a + 1, second.0, dot_b);
    lemma_small_number_text(s, dot_b + 1, third.0, end);
    lemma_part_index(s, dot_a, dot());
    lemma_part_index(s, dot_b, dot());
    assert(dot()[0] == '.');
    assert(s[dot_a] == '.');
    assert(s[dot_b] == '.');
    assert(s.subrange(pos, end) =~= s.subrange(pos, dot_a) + dot() + s.subrange(dot_a + 1, dot_b) + dot()
        + s.subrange(dot_b + 1, end));
}

/// Four digits are the thousands, hundreds, tens and units of the number
/// that they write.
proof fn lemma_four_digits(a: int, b: int, c: int, d: int)
    requires
        0 <= a < 10,
        0 <= b < 10,
        0 <= c < 10,
        0 <= d < 10,
    ensures
        0 <= a * 1000 + b * 100 + c * 10 + d <= 9999,
        (a * 1000 + b * 100 + c * 10 + d) / 1000 == a,
        (a * 1000 + b * 100 + c * 10 + d) / 100 % 10 == b,
        (a * 1000 + b * 100 + c * 10 + d) / 10 % 10 == c,
        (a * 1000 + b * 100 + c * 10 + d) % 10 == d,
{
    let y = a * 1000 + b * 100 + c * 10 + d;
    lemma_fundamental_div_mod_converse(y, 1000, a, b * 100 + c * 10 + d);
    lemma_fundamental_div_mod_converse(y, 100, a * 10 + b, c * 10 + d);
    lemma_fundamental_div_mod_converse(a * 10 + b, 10, a, b);
    lemma_fundamental_div_mod_converse(y, 10, a * 100 + b * 10 + c, d);
    lemma_fundamental_div_mod_converse(a * 100 + b * 10 + c, 10, a * 10 + b, c);
}

/// A number below ten thousand is written by its thousands, hundreds, tens
/// and units.
proof fn lemma_digits_of(y: int)
    requires
        0 <= y <= 9999,
    ensures
        0 <= y / 1000 < 10,
        0 <= y / 100 % 10 < 10,
        0 <= y / 10 % 10 < 10,
        0 <= y % 10 < 10,
        (y / 1000) * 1000 + (y / 100 % 10) * 100 + (y / 10 % 10) * 10 + y % 10 == y,
{
    let a = y / 1000;
    let rest = y % 1000;
    let b = rest / 100;
    let less = rest % 100;
    let c = less / 10;
    let d = less % 10;
    assert(y == a * 1000 + b * 100 + c * 10 + d);
    lemma_four_digits(a, b, c, d);
}

/// The four digits of a year are read as that year.
proof fn lemma_year_at(s: Seq<char>, pos: int, year: int)
    requires
        0 <= year <= 9999,
        0 <= pos,
        pos + 4 <= s.len(),
        s.subrange(pos, pos + 4) == year_text(year),
    ensures
        year_at(s, pos) == Some(year),
{
    lemma_part_index(s, pos, year_text(year));
    let t = year_text(year);
    assert(s[pos] == t[0] && s[pos + 1] == t[1] && s[pos + 2] == t[2] && s[pos + 3] == t[3]);
    lemma_digits_of(year);
    lemma_digit_char_value(year / 1000);
    lemma_digit_char_value(year / 100 % 10);
    lemma_digit_char_value(year / 10 % 10);
    lemma_digit_char_value(year % 10);
}

/// What is read as a year is the four digits of that year.
proof fn lemma_year_text(s: Seq<char>, pos: int, year: int)
    requires
        year_at(s, pos) == Some(year),
    ensures
        0 <= year <= 9999,
        s.subrange(pos, pos + 4) == year_text(year),
{
    lemma_digit_value_char(s[pos]);
    lemma_digit_value_char(s[pos + 1]);
    lemma_digit_value_char(s[pos + 2]);
    lemma_digit_value_char(s[pos + 3]);
    lemma_four_digits(
        digit_value(s[pos]),
        digit_value(s[pos + 1]),
        digit_value(s[pos + 2]),
        digit_value(s[pos + 3]),
    );
    assert(s.subrange(pos, pos + 4) =~= year_text(year));
}

/// The text of a date that exists, with no digit behind it, is read as that
/// date.
pub proof fn lemma_date_at(s: Seq<char>, pos: int, date: Date)
    requires
        date.wf(),
        0 <= pos,
        pos + date.text().len() <= s.len(),
        s.subrange(pos, pos + date.text().len()) == date.text(),
        pos + date.text().len() == s.len() || !is_digit(s[pos + date.text().len()]),
    ensures
        date_at(s, pos) == Some((date, pos + date.text().len())),
{
    let y = year_text(date.year as int);
    let b = decimal(date.month as nat);
    let c = decimal(date.day as nat);
    let t = date.text();
    let lb = b.len() as int;
    let lc = c.len() as int;
    let dot_a = pos + 5 + lb;
    assert(t.len() == 4 + lb + lc + 2);
    lemma_part_index(s, pos, t);
    assert(t.subrange(0, 4) =~= y);
    assert(t[4] == '.');
    assert(t.subrange(5, 5 + lb) =~= b);
    assert(t[5 + lb] == '.');
    assert(t.subrange(lb + 6, t.len() as int) =~= c);
    lemma_part_of_part(s, pos, t, 0, 4);
    lemma_part_of_part(s, pos, t, 5, 5 + lb);
    lemma_part_of_part(s, pos, t, lb + 6, t.len() as int);
    assert(s[pos + 4] == '.');
    assert(s[dot_a] == '.');
    lemma_year_at(s, pos, date.year as int);
    lemma_small_number_at(s, pos + 5, date.month as u64);
    lemma_small_number_at(s, dot_a + 1, date.day as u64);
    assert(s.subrange(pos + 4, pos + 5) =~= dot());
    assert(s.subrange(dot_a, dot_a + 1) =~= dot());
}

/// What is read as a date is the text of that date, which exists, and no
/// digit follows it.
pub proof fn lemma_date_text(s: Seq<char>, pos: int, date: Date, end: int)
    requires
        date_at(s, pos) == Some((date, end)),
    ensures
        date.wf(),
        0 <= pos < end <= s.len(),
        s.subrange(pos, end) == date.text(),
        end == s.len() || !is_digit(s[end]),
{
    let year = year_at(s, pos)->0;
    let second = small_number_at(s, pos + 5)->0;
    let dot_a = second.1;
    let third = small_number_at(s, dot_a + 1)->0;
    lemma_year_text(s, pos, year);
    lemma_small_number_text(s, pos + 5, second.0, dot_a);
    lemma_small_number_text(s, dot_a + 1, third.0, end);
    lemma_part_index(s, pos + 4, dot());
    lemma_part_index(s, dot_a, dot());
    assert(dot()[0] == '.');
    assert(s[pos + 4] == '.');
    assert(s[dot_a] == '.');
    assert(s.subrange(pos, end) =~= s.subrange(pos, pos + 4) + dot() + s.subrange(pos + 5, dot_a)
        + dot() + s.subrange(dot_a + 1, end));
}

/// The hexadecimal text of a commit prefix is read as that prefix.
pub proof fn lemma_commit_at(s: Seq<char>, pos: int, commit: [u8; 4])
    requires
        0 <= pos,
        pos + 8 <= s.len(),
        s.subrange(pos, pos + 8) == commit_text(commit),
    ensures
        commit_at(s, pos, commit),
{
    let t = commit_text(commit);
    lemma_part_index(s, pos, t);
    lemma_hex_byte(commit[0]);
    lemma_hex_byte(commit[1]);
    lemma_hex_byte(commit[2]);
    lemma_hex_byte(commit[3]);
    assert(t[0] == hex_byte(commit[0])[0] && t[1] == hex_byte(commit[0])[1]);
    assert(t[2] == hex_byte(commit[1])[0] && t[3] == hex_byte(commit[1])[1]);
    assert(t[4] == hex_byte(commit[2])[0] && t[5] == hex_byte(commit[2])[1]);
    assert(t[6] == hex_byte(commit[3])[0] && t[7] == hex_byte(commit[3])[1]);
    assert forall|i: int| pos <= i < pos + 8 implies is_hex(#[trigger] s[i]) by {
        assert(s[i] == t[i - pos]);
    }
}

/// What is read as a commit prefix is the hexadecimal text of that prefix.
pub proof fn lemma_commit_text(s: Seq<char>, pos: int, commit: [u8; 4])
    requires
        commit_at(s, pos, commit),
    ensures
        s.subrange(pos, pos + 8) == commit_text(commit),
{
    assert(is_hex(s[pos]) && is_hex(s[pos + 1]) && is_hex(s[pos + 2]) && is_hex(s[pos + 3]));
    assert(is_hex(s[pos + 4]) && is_hex(s[pos + 5]) && is_hex(s[pos + 6]) && is_hex(s[pos + 7]));
    lemma_byte_of_hex(s[pos], s[pos + 1]);
    lemma_byte_of_hex(s[pos + 2], s[pos + 3]);
    lemma_byte_of_hex(s[pos + 4], s[pos + 5]);
    lemma_byte_of_hex(s[pos + 6], s[pos + 7]);
    assert(s.subrange(pos, pos + 8) =~= commit_text(commit));
}

/// `+commit.` and a commit prefix that end a text are read as that prefix.
proof fn lemma_commit_ends(s: Seq<char>, pos: int, commit: [u8; 4])
    requires
        0 <= pos,
        s.len() == pos + 16,
        s.subrange(pos, pos + 16) == commit_mark() + commit_text(commit),
    ensures
        commit_ends(s, pos, commit),
{
    let t = commit_mark() + commit_text(commit);
    assert(t.subrange(0, 8) =~= commit_mark());
    assert(t.subrange(8, 16) =~= commit_text(commit));
    lemma_part_of_part(s, pos, t, 0, 8);
    lemma_part_of_part(s, pos, t, 8, 16);
    lemma_commit_at(s, pos + 8, commit);
}

/// A text whose start is `head`, with `part` behind it, starts with both.
proof fn lemma_append_part(s: Seq<char>, p: int, q: int, head: Seq<char>, part: Seq<char>)
    requires
        0 <= p <= q <= s.len(),
        s.subrange(0, p) == head,
        s.subrange(p, q) == part,
    ensures
        s.subrange(0, q) == head + part,
{
    assert(s.subrange(0, q) =~= s.subrange(0, p) + s.subrange(p, q));
}

/// A text whose start is `head`, and which ends with `+commit.` and a commit
/// prefix behind it, is all three.
proof fn lemma_append_commit(s: Seq<char>, p: int, head: Seq<char>, commit: [u8; 4])
    requires
        0 <= p <= s.len(),
        s.subrange(0, p) == head,
        commit_ends(s, p, commit),
    ensures
        s == head + commit_mark() + commit_text(commit),
{
    lemma_commit_text(s, p + 8, commit);
    lemma_append_part(s, p, p + 8, head, commit_mark());
    lemma_append_part(s, p + 8, p + 16, head + commit_mark(), commit_text(commit));
    assert(s.subrange(0, p + 16) =~= s);
}

/// The canonical text of a version is read as that version.
pub proof fn lemma_canonical_reads(v: Version)
    requires
        v.wf(),
    ensures
        reads_as(v.canonical(), v),
{
    let s = v.canonical();
    let sv = v.semver();
    let t = sv.text();
    lemma_decimal_is_decimal(sv.major as nat);
    lemma_decimal_is_decimal(sv.minor as nat);
    lemma_decimal_is_decimal(sv.patch as nat);
    let p = 1 + t.len() as int;
    assert(s.subrange(0, 1) =~= seq!['v']);
    assert(s.subrange(1, p) =~= t);
    match v {
        Version::Release(r) => {
            assert(s.len() == p + 16);
            assert(s[p] == '+');
            lemma_semver_at(s, 1, sv);
            assert(s.subrange(p, p + 16) =~= commit_mark() + commit_text(r.commit));
            lemma_commit_ends(s, p, r.commit);
        },
        Version::Nightly(n) => {
            let d = n.date.text();
            lemma_decimal_is_decimal(n.date.month as nat);
            lemma_decimal_is_decimal(n.date.day as nat);
            let q = p + 9 + d.len() as int;
            assert(s.len() == q + 16);
            assert(s[p] == '-');
            lemma_semver_at(s, 1, sv);
            assert(s.subrange(p, p + 9) =~= nightly_mark());
            assert(s.subrange(p + 9, q) =~= d);
            assert(s[q] == '+');
            lemma_date_at(s, p + 9, n.date);
            assert(s.subrange(q, q + 16) =~= commit_mark() + commit_text(n.commit));
            lemma_commit_ends(s, q, n.commit);
        },
    }
}

/// A text that is read as a version is the canonical text of that version,
/// and the version can be written.
pub proof fn lemma_reads_canonical(s: Seq<char>, v: Version)
    requires
        reads_as(s, v),
    ensures
        v.wf(),
        v.canonical() == s,
{
    let found = semver_at(s, 1)->0;
    let p = found.1;
    lemma_semver_text(s, 1, found.0, p);
    let head = seq!['v'] + found.0.text();
    lemma_append_part(s, 1, p, seq!['v'], found.0.text());
    match v {
        Version::Release(r) => {
            lemma_append_commit(s, p, head, r.commit);
        },
        Version::Nightly(n) => {
            let dated = date_at(s, p + 9)->0;
            let q = dated.1;
            lemma_date_text(s, p + 9, dated.0, q);
            lemma_append_part(s, p, p + 9, head, nightly_mark());
            lemma_append_part(s, p + 9, q, head + nightly_mark(), n.date.text());
            lemma_append_commit(s, q, head + nightly_mark() + n.date.text(), n.commit);
        },
    }
}

/// A text is read as one version at most.
pub proof fn lemma_reads_one(s: Seq<char>, a: Version, b: Version)
    requires
        reads_as(s, a),
        reads_as(s, b),
    ensures
        a == b,
{
    let found = semver_at(s, 1)->0;
    let p = found.1;
    assert(commit_mark()[0] == '+');
    assert(nightly_mark()[0] == '-');
    if word_at(s, p, commit_mark()) {
        lemma_part_index(s, p, commit_mark());
    }
    if word_at(s, p, nightly_mark()) {
        lemma_part_index(s, p, nightly_mark());
    }
    assert(a.commit_prefix() =~= b.commit_prefix());
}

/// Two texts of plain ASCII, one behind the other, are plain ASCII.
proof fn lemma_ascii_join(a: Seq<char>, b: Seq<char>)
    requires
        is_ascii_chars(a),
        is_ascii_chars(b),
    ensures
        is_ascii_chars(a + b),
{
    is_ascii_chars_concat(a + b, a, b);
}

/// The canonical text of a number is plain ASCII.
proof fn lemma_decimal_ascii(n: nat)
    ensures
        is_ascii_chars(decimal(n)),
{
    lemma_decimal_is_decimal(n);
}

/// The text of a semantic version is plain ASCII.
proof fn lemma_semver_ascii(v: SemVer)
    ensures
        is_ascii_chars(v.text()),
{
    let a = decimal(v.major as nat);
    let b = decimal(v.minor as nat);
    let c = decimal(v.patch as nat);
    lemma_decimal_ascii(v.major as nat);
    lemma_decimal_ascii(v.minor as nat);
    lemma_decimal_ascii(v.patch as nat);
    lemma_ascii_join(a, dot());
    lemma_ascii_join(a + dot(), b);
    lemma_ascii_join(a + dot() + b, dot());
    lemma_ascii_join(a + dot() + b + dot(), c);
}

/// The text of a date is plain ASCII.
proof fn lemma_date_ascii(date: Date)
    ensures
        is_ascii_chars(date.text()),
{
    let y = year_text(date.year as int);
    let b = decimal(date.month as nat);
    let c = decimal(date.day as nat);
    lemma_decimal_ascii(date.month as nat);
    lemma_decimal_ascii(date.day as nat);
    lemma_ascii_join(y, dot());
    lemma_ascii_join(y + dot(), b);
    lemma_ascii_join(y + dot() + b, dot());
    lemma_ascii_join(y + dot() + b + dot(), c);
}

/// The hexadecimal text of a commit prefix is plain ASCII.
proof fn lemma_commit_ascii(commit: [u8; 4])
    ensures
        is_ascii_chars(commit_text(commit)),
{
    let a = hex_byte(commit[0]);
    let b = hex_byte(commit[1]);
    let c = hex_byte(commit[2]);
    let d = hex_byte(commit[3]);
    lemma_hex_byte(commit[0]);
    lemma_hex_byte(commit[1]);
    lemma_hex_byte(commit[2]);
    lemma_hex_byte(commit[3]);
    lemma_ascii_join(a, b);
    lemma_ascii_join(a + b, c);
    lemma_ascii_join(a + b + c, d);
}

/// The canonical text of a version is plain ASCII.
pub proof fn lemma_canonical_ascii(v: Version)
    ensures
        is_ascii_chars(v.canonical()),
{
    let head = seq!['v'] + v.semver().text();
    lemma_semver_ascii(v.semver());
    lemma_commit_ascii(v.commit_prefix());
    lemma_ascii_join(seq!['v'], v.semver().text());
    match v {
        Version::Release(r) => {
            lemma_ascii_join(head, commit_mark());
            lemma_ascii_join(head + commit_mark(), commit_text(r.commit));
        },
        Version::Nightly(n) => {
            lemma_date_ascii(n.date);
            lemma_ascii_join(head, nightly_mark());
            lemma_ascii_join(head + nightly_mark(), n.date.text());
            lemma_ascii_join(head + nightly_mark() + n.date.text(), commit_mark());
            lemma_ascii_join(
                head + nightly_mark() + n.date.text() + commit_mark(),
                commit_text(n.commit),
            );
        },
    }
}

/// Reads the semantic version written at `pos` and says where it ends.
fn read_semver(s: &str, pos: usize) -> (r: Option<(SemVer, usize)>)
    requires
        s.is_ascii(),
        pos <= s@.len(),
    ensures
        match r {
            Some((v, end)) => semver_at(s@, pos as int) == Some((v, end as int)) && pos < end
                <= s@.len(),
            None => semver_at(s@, pos as int) is None,
        },
{
    proof {
        reveal_strlit(".");
        assert("."@ =~= dot());
    }
    let len = text_len(s);
    let (major, dot_a) = match read_decimal(s, pos) {
        Some(found) => found,
        None => { return None; },
    };
    if !has_word(s, dot_a, ".") {
        return None;
    }
    let (minor, dot_b) = match read_decimal(s, dot_a + 1) {
        Some(found) => found,
        None => { return None; },
    };
    if !has_word(s, dot_b, ".") {
        return None;
    }
    let (patch, stop) = match read_decimal(s, dot_b + 1) {
        Some(found) => found,
        None => { return None; },
    };
    Some((SemVer { major, minor, patch }, stop))
}

/// Reads the decimal digit at `pos`.
fn read_digit(s: &str, pos: usize) -> (r: Option<u16>)
    requires
        s.is_ascii(),
        pos < s@.len(),
    ensures
        match r {
            Some(d) => is_digit(s@[pos as int]) && d == digit_value(s@[pos as int]),
            None => !is_digit(s@[pos as int]),
        },
{
    let b = s.get_ascii(pos);
    if 48 <= b && b <= 57 {
        Some((b - 48) as u16)
    } else {
        None
    }
}

/// Reads the year written in the four digits at `pos`.
fn read_year(s: &str, pos: usize) -> (r: Option<u16>)
    requires
        s.is_ascii(),
        pos <= s@.len(),
    ensures
        match r {
            Some(year) => year_at(s@, pos as int) == Some(year as int),
            None => year_at(s@, pos as int) is None,
        },
{
    let len = text_len(s);
    if len - pos < 4 {
        return None;
    }
    let a = match read_digit(s, pos) {
        Some(d) => d,
        None => { return None; },
    };
    let b = match read_digit(s, pos + 1) {
        Some(d) => d,
        None => { return None; },
    };
    let c = match read_digit(s, pos + 2) {
        Some(d) => d,
        None => { return None; },
    };
    let d = match read_digit(s, pos + 3) {
        Some(d) => d,
        None => { return None; },
    };
    Some(a * 1000 + b * 100 + c * 10 + d)
}

/// Reads the date written at `pos` and says where it ends.
fn read_date(s: &str, pos: usize) -> (r: Option<(Date, usize)>)
    requires
        s.is_ascii(),
        pos <= s@.len(),
    ensures
        match r {
            Some((date, end)) => date_at(s@, pos as int) == Some((date, end as int)) && pos < end
                <= s@.len(),
            None => date_at(s@, pos as int) is None,
        },
{
    proof {
        reveal_strlit(".");
        assert("."@ =~= dot());
    }
    let len = text_len(s);
    let year = match read_year(s, pos) {
        Some(found) => found,
        None => { return None; },
    };
    if !has_word(s, pos + 4, ".") {
        return None;
    }
    let (month, dot_a) = match read_decimal(s, pos + 5) {
        Some(found) => found,
        None => { return None; },
    };
    if !has_word(s, dot_a, ".") {
        return None;
    }
    let (day, dot_b) = match read_decimal(s, dot_a + 1) {
        Some(found) => found,
        None => { return None; },
    };
    if month > 12 || day > 31 {
        return None;
    }
    let date = Date { year, month: month as u8, day: day as u8 };
    if !date.is_valid() {
        return None;
    }
    Some((date, dot_b))
}

/// Reads the commit prefix that `+commit.` and eight hexadecimal digits at
/// `pos` write, where they end the text.
fn read_commit_end(s: &str, pos: usize) -> (r: Option<[u8; 4]>)
    requires
        s.is_ascii(),
        pos <= s@.len(),
    ensures
        match r {
            Some(commit) => commit_ends(s@, pos as int, commit),
            None => forall|commit: [u8; 4]| !commit_ends(s@, pos as int, commit),
        },
{
    proof {
        reveal_strlit("+commit.");
        assert("+commit."@ =~= commit_mark());
    }
    let len = text_len(s);
    if !has_word(s, pos, "+commit.") {
        return None;
    }
    if len - pos != 16 {
        return None;
    }
    let a = match read_hex_byte(s, pos + 8) {
        Some(b) => b,
        None => { return None; },
    };
    let b = match read_hex_byte(s, pos + 10) {
        Some(b) => b,
        None => { return None; },
    };
    let c = match read_hex_byte(s, pos + 12) {
        Some(b) => b,
        None => { return None; },
    };
    let d = match read_hex_byte(s, pos + 14) {
        Some(b) => b,
        None => { return None; },
    };
    Some([a, b, c, d])
}

/// Reads the version that `s` is the canonical text of.
pub fn read_version(s: &str) -> (r: Option<Version>)
    ensures
        match r {
            Some(v) => reads_as(s@, v),
            None => forall|v: Version| !reads_as(s@, v),
        },
{
    if !s.is_ascii() {
        proof {
            assert forall|v: Version| !reads_as(s@, v) by {
                if reads_as(s@, v) {
                    lemma_reads_canonical(s@, v);
                    lemma_canonical_ascii(v);
                }
            }
        }
        return None;
    }
    proof {
        reveal_strlit("v");
        assert("v"@ =~= seq!['v']);
        reveal_strlit("-nightly.");
        assert("-nightly."@ =~= nightly_mark());
    }
    let len = text_len(s);
    if !has_word(s, 0, "v") {
        return None;
    }
    let (version, p) = match read_semver(s, 1) {
        Some(found) => found,
        None => { return None; },
    };
    if has_word(s, p, "-nightly.") {
        let (date, q) = match read_date(s, p + 9) {
            Some(found) => found,
            None => {
                proof {
                    assert(nightly_mark()[0] == '-');
                    assert(commit_mark()[0] == '+');
                    lemma_part_index(s@, p as int, nightly_mark());
                    assert forall|v: Version| !reads_as(s@, v) by {
                        if reads_as(s@, v) && v is Release {
                            lemma_part_index(s@, p as int, commit_mark());
                        }
                    }
                }
                return None;
            },
        };
        match read_commit_end(s, q) {
            Some(commit) => Some(Version::Nightly(NightlyVersion { version, date, commit })),
            None => {
                proof {
                    assert(nightly_mark()[0] == '-');
                    assert(commit_mark()[0] == '+');
                    lemma_part_index(s@, p as int, nightly_mark());
                    assert forall|v: Version| !reads_as(s@, v) by {
                        if reads_as(s@, v) && v is Release {
                            lemma_part_index(s@, p as int, commit_mark());
                        }
                    }
                }
                None
            },
        }
    } else {
        match read_commit_end(s, p) {
            Some(commit) => Some(Version::Release(ReleaseVersion { version, commit })),
            None => None,
        }
    }
}

} // verus!
