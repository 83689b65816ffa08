//! Decimal and hexadecimal text, as sequences of characters.
//!
//! The canonical text of a number is the shortest one: no sign, no leading
//! zero. Hexadecimal text is lower case, two characters to the byte.

use vstd::prelude::*;
use vstd::string::*;

verus! {

/// The character that writes the decimal digit `d`.
pub open spec fn digit_char(d: int) -> char {
    if d == 0 {
        '0'
    } else if d == 1 {
        '1'
    } else if d == 2 {
        '2'
    } else if d == 3 {
        '3'
    } else if d == 4 {
        '4'
    } else if d == 5 {
        '5'
    } else if d == 6 {
        '6'
    } else if d == 7 {
        '7'
    } else if d == 8 {
        '8'
    } else {
        '9'
    }
}

/// Whether `c` is one of the ten decimal digits.
pub open spec fn is_digit(c: char) -> bool {
    '0' <= c && c <= '9'
}

/// The number that the decimal digit `c` stands for.
pub open spec fn digit_value(c: char) -> int {
    c as int - '0' as int
}

/// A digit's character is a digit and stands for it.
pub proof fn lemma_digit_char_value(d: int)
    requires
        0 <= d < 10,
    ensures
        is_digit(digit_char(d)),
        digit_value(digit_char(d)) == d,
{
}

/// A digit is the character of the number it stands for.
pub proof fn lemma_digit_value_char(c: char)
    requires
        is_digit(c),
    ensures
        0 <= digit_value(c) < 10,
        digit_char(digit_value(c)) == c,
{
}

/// Whether every character of `s` is a decimal digit.
pub open spec fn all_digits(s: Seq<char>) -> bool {
    forall|i: int| 0 <= i < s.len() ==> is_digit(#[trigger] s[i])
}

/// The canonical decimal text of `n`.
pub open spec fn decimal(n: nat) -> Seq<char>
    decreases n,
{
    if n < 10 {
        seq![digit_char(n as int)]
    } else {
        decimal(n / 10).push(digit_char((n % 10) as int))
    }
}

/// Whether `s` is the canonical decimal text of some number: digits only, at
/// least one, and no leading zero before another digit.
pub open spec fn is_decimal(s: Seq<char>) -> bool {
    &&& s.len() > 0
    &&& all_digits(s)
    &&& (s.len() > 1 ==> s[0] != '0')
}

/// The number that a run of decimal digits writes.
pub open spec fn decimal_value(s: Seq<char>) -> nat
    decreases s.len(),
{
    if s.len() == 0 {
        0
    } else {
        (decimal_value(s.drop_last()) * 10 + digit_value(s.last())) as nat
    }
}

/// Where the run of decimal digits that starts at `pos` ends.
pub open spec fn digit_run_end(s: Seq<char>, pos: int) -> int
    decreases s.len() - pos,
{
    if 0 <= pos < s.len() && is_digit(s[pos]) {
        digit_run_end(s, pos + 1)
    } else {
        pos
    }
}

/// The number written at `pos`, with the position behind it: the whole run of
/// digits there, if it is canonical.
pub open spec fn number_at(s: Seq<char>, pos: int) -> Option<(nat, int)> {
    let end = digit_run_end(s, pos);
    let run = s.subrange(pos, end);
    if 0 <= pos <= s.len() && is_decimal(run) {
        Some((decimal_value(run), end))
    } else {
        None
    }
}

/// The canonical text of a number is canonical.
pub proof fn lemma_decimal_is_decimal(n: nat)
    ensures
        is_decimal(decimal(n)),
    decreases n,
{
    if n >= 10 {
        lemma_decimal_is_decimal(n / 10);
        let head = decimal(n / 10);
        let whole = decimal(n);
        assert(whole == head.push(digit_char((n % 10) as int)));
        assert forall|i: int| 0 <= i < whole.len() implies is_digit(#[trigger] whole[i]) by {
            if i < head.len() {
                assert(whole[i] == head[i]);
            }
        }
        if head.len() == 1 {
            assert(n / 10 < 10) by {
                if n / 10 >= 10 {
                    assert(decimal(n / 10).len() == decimal(n / 10 / 10).len() + 1);
                }
            }
            assert(head[0] == digit_char((n / 10) as int));
        }
        assert(whole[0] == head[0]);
    }
}

/// Reading the canonical text of a number gives the number back.
pub proof fn lemma_decimal_value(n: nat)
    ensures
        decimal_value(decimal(n)) == n,
    decreases n,
{
    if n < 10 {
        let s = decimal(n);
        assert(s.drop_last() =~= Seq::<char>::empty());
        assert(decimal_value(s.drop_last()) == 0);
    } else {
        lemma_decimal_value(n / 10);
        let s = decimal(n);
        assert(s.drop_last() =~= decimal(n / 10));
        assert(s.last() == digit_char((n % 10) as int));
    }
}

/// A run of digits that does not start with zero writes a positive number.
pub proof fn lemma_value_positive(s: Seq<char>)
    requires
        s.len() > 0,
        all_digits(s),
        s[0] != '0',
    ensures
        decimal_value(s) >= 1,
    decreases s.len(),
{
    if s.len() == 1 {
        assert(s.drop_last() =~= Seq::<char>::empty());
        assert(decimal_value(s.drop_last()) == 0);
    } else {
        let init = s.drop_last();
        assert(init[0] == s[0]);
        lemma_value_positive(init);
    }
}

/// Writing the number that a canonical text reads as gives the text back.
pub proof fn lemma_value_decimal(s: Seq<char>)
    requires
        is_decimal(s),
    ensures
        decimal(decimal_value(s)) == s,
    decreases s.len(),
{
    let init = s.drop_last();
    let d = digit_value(s.last());
    if s.len() == 1 {
        assert(init =~= Seq::<char>::empty());
        assert(decimal_value(init) == 0);
        assert(decimal(decimal_value(s)) =~= s);
    } else {
        assert(init[0] == s[0]);
        lemma_value_decimal(init);
        lemma_value_positive(init);
        let v = decimal_value(s);
        assert(v == decimal_value(init) * 10 + d);
        assert(v / 10 == decimal_value(init));
        assert(v % 10 == d);
        assert(decimal(v) =~= s);
    }
}

/// A run of digits writes at least what any of its prefixes writes.
pub proof fn lemma_value_monotone(s: Seq<char>, k: int)
    requires
        all_digits(s),
        0 <= k <= s.len(),
    ensures
        decimal_value(s.subrange(0, k)) <= decimal_value(s),
    decreases s.len() - k,
{
    if k == s.len() {
        assert(s.subrange(0, k) =~= s);
    } else {
        let init = s.drop_last();
        assert(init.subrange(0, k) =~= s.subrange(0, k));
        lemma_value_monotone(init, k);
    }
}

/// The run of digits at `pos` ends where a character that is no digit, or the
/// end of the text, follows digits only.
pub proof fn lemma_digit_run(s: Seq<char>, pos: int, end: int)
    requires
        0 <= pos <= end <= s.len(),
        all_digits(s.subrange(pos, end)),
        end == s.len() || !is_digit(s[end]),
    ensures
        digit_run_end(s, pos) == end,
    decreases end - pos,
{
    if pos < end {
        assert(s[pos] == s.subrange(pos, end)[0]);
        assert forall|i: int| 0 <= i < end - (pos + 1) implies is_digit(
            #[trigger] s.subrange(pos + 1, end)[i],
        ) by {
            assert(s.subrange(pos + 1, end)[i] == s.subrange(pos, end)[i + 1]);
        }
        lemma_digit_run(s, pos + 1, end);
    }
}

/// The run of digits at `pos` holds digits only, and no digit follows it.
pub proof fn lemma_digit_run_end(s: Seq<char>, pos: int)
    requires
        0 <= pos <= s.len(),
    ensures
        pos <= digit_run_end(s, pos) <= s.len(),
        all_digits(s.subrange(pos, digit_run_end(s, pos))),
        digit_run_end(s, pos) == s.len() || !is_digit(s[digit_run_end(s, pos)]),
    decreases s.len() - pos,
{
    if pos < s.len() && is_digit(s[pos]) {
        lemma_digit_run_end(s, pos + 1);
        let end = digit_run_end(s, pos);
        assert forall|i: int| 0 <= i < end - pos implies is_digit(
            #[trigger] s.subrange(pos, end)[i],
        ) by {
            if i > 0 {
                assert(s.subrange(pos, end)[i] == s.subrange(pos + 1, end)[i - 1]);
            }
        }
    }
}

/// The canonical text of `n`, standing at `pos` before the end of the text or
/// a character that is no digit, is the number written there.
pub proof fn lemma_number_at(s: Seq<char>, pos: int, n: nat)
    requires
        0 <= pos,
        pos + decimal(n).len() <= s.len(),
        s.subrange(pos, pos + decimal(n).len()) == decimal(n),
        pos + decimal(n).len() == s.len() || !is_digit(s[pos + decimal(n).len()]),
    ensures
        number_at(s, pos) == Some((n, pos + decimal(n).len())),
{
    lemma_decimal_is_decimal(n);
    lemma_decimal_value(n);
    lemma_digit_run(s, pos, pos + decimal(n).len());
}

/// The number written at `pos` stands there in its canonical text.
pub proof fn lemma_number_at_text(s: Seq<char>, pos: int, n: nat, end: int)
    requires
        number_at(s, pos) == Some((n, end)),
    ensures
        0 <= pos < end <= s.len(),
        s.subrange(pos, end) == decimal(n),
        end == s.len() || !is_digit(s[end]),
{
    lemma_digit_run_end(s, pos);
    lemma_value_decimal(s.subrange(pos, digit_run_end(s, pos)));
}

/// The character that writes the hexadecimal digit `d`, in lower case.
pub open spec fn hex_char(d: int) -> char {
    if d < 10 {
        digit_char(d)
    } else if d == 10 {
        'a'
    } else if d == 11 {
        'b'
    } else if d == 12 {
        'c'
    } else if d == 13 {
        'd'
    } else if d == 14 {
        'e'
    } else {
        'f'
    }
}

/// Whether `c` is a lower-case hexadecimal digit.
pub open spec fn is_hex(c: char) -> bool {
    is_digit(c) || ('a' <= c && c <= 'f')
}

/// The number that the hexadecimal digit `c` stands for.
pub open spec fn hex_value(c: char) -> int {
    if is_digit(c) {
        digit_value(c)
    } else {
        c as int - 'a' as int + 10
    }
}

/// The two hexadecimal digits of a byte, the high one first.
pub open spec fn hex_byte(b: u8) -> Seq<char> {
    seq![hex_char(b as int / 16), hex_char(b as int % 16)]
}

/// The hexadecimal text of a sequence of bytes.
pub open spec fn hex(bytes: Seq<u8>) -> Seq<char>
    decreases bytes.len(),
{
    if bytes.len() == 0 {
        Seq::empty()
    } else {
        hex(bytes.drop_last()) + hex_byte(bytes.last())
    }
}

/// The hexadecimal text of bytes holds two digits for each byte, in order.
pub proof fn lemma_hex_index(bytes: Seq<u8>, k: int)
    requires
        0 <= k < bytes.len(),
    ensures
        hex(bytes).len() == 2 * bytes.len(),
        hex(bytes)[2 * k] == hex_byte(bytes[k])[0],
        hex(bytes)[2 * k + 1] == hex_byte(bytes[k])[1],
    decreases bytes.len(),
{
    lemma_hex_len(bytes);
    lemma_hex_len(bytes.drop_last());
    if k < bytes.len() - 1 {
        lemma_hex_index(bytes.drop_last(), k);
    }
}

/// The hexadecimal text of bytes is twice as long as they are.
pub proof fn lemma_hex_len(bytes: Seq<u8>)
    ensures
        hex(bytes).len() == 2 * bytes.len(),
    decreases bytes.len(),
{
    if bytes.len() > 0 {
        lemma_hex_len(bytes.drop_last());
    }
}

/// The byte that two hexadecimal digits write.
pub open spec fn byte_of_hex(high: char, low: char) -> u8 {
    (hex_value(high) * 16 + hex_value(low)) as u8
}

/// The two digits of a byte are hexadecimal digits, and write that byte.
pub proof fn lemma_hex_byte(b: u8)
    ensures
        is_hex(hex_byte(b)[0]),
        is_hex(hex_byte(b)[1]),
        byte_of_hex(hex_byte(b)[0], hex_byte(b)[1]) == b,
{
    let h = b as int / 16;
    let l = b as int % 16;
    assert(0 <= h < 16 && 0 <= l < 16);
    assert(hex_value(hex_char(h)) == h);
    assert(hex_value(hex_char(l)) == l);
}

/// Two hexadecimal digits are the text of the byte that they write.
pub proof fn lemma_byte_of_hex(high: char, low: char)
    requires
        is_hex(high),
        is_hex(low),
    ensures
        hex_byte(byte_of_hex(high, low)) == seq![high, low],
{
    let h = hex_value(high);
    let l = hex_value(low);
    assert(0 <= h < 16 && 0 <= l < 16);
    assert(hex_char(h) == high);
    assert(hex_char(l) == low);
    let b = byte_of_hex(high, low);
    assert(b as int == h * 16 + l);
    assert(b as int / 16 == h);
    assert(b as int % 16 == l);
}

/// The text of the decimal digit `d`.
fn digit_str(d: u64) -> (s: &'static str)
    requires
        d < 10,
    ensures
        s@ == seq![digit_char(d as int)],
{
    proof {
        reveal_strlit("0");
        reveal_strlit("1");
        reveal_strlit("2");
        reveal_strlit("3");
        reveal_strlit("4");
        reveal_strlit("5");
        reveal_strlit("6");
        reveal_strlit("7");
        reveal_strlit("8");
        reveal_strlit("9");
    }
    let s = if d == 0 {
        "0"
    } else if d == 1 {
        "1"
    } else if d == 2 {
        "2"
    } else if d == 3 {
        "3"
    } else if d == 4 {
        "4"
    } else if d == 5 {
        "5"
    } else if d == 6 {
        "6"
    } else if d == 7 {
        "7"
    } else if d == 8 {
        "8"
    } else {
        "9"
    };
    assert(s@ =~= seq![digit_char(d as int)]);
    s
}

/// The text of the hexadecimal digit `d`.
fn hex_str(d: u8) -> (s: &'static str)
    requires
        d < 16,
    ensures
        s@ == seq![hex_char(d as int)],
{
    if d < 10 {
        digit_str(d as u64)
    } else {
        proof {
            reveal_strlit("a");
            reveal_strlit("b");
            reveal_strlit("c");
            reveal_strlit("d");
            reveal_strlit("e");
            reveal_strlit("f");
        }
        let s = if d == 10 {
            "a"
        } else if d == 11 {
            "b"
        } else if d == 12 {
            "c"
        } else if d == 13 {
            "d"
        } else if d == 14 {
            "e"
        } else {
            "f"
        };
        assert(s@ =~= seq![hex_char(d as int)]);
        s
    }
}

/// Appends the canonical decimal text of `n` to `out`.
pub fn push_decimal(out: &mut String, n: u64)
    ensures
        final(out)@ == old(out)@ + decimal(n as nat),
    decreases n,
{
    if n < 10 {
        out.append(digit_str(n));
    } else {
        push_decimal(out, n / 10);
        out.append(digit_str(n % 10));
        assert(final(out)@ =~= old(out)@ + decimal(n as nat));
    }
}

/// Appends the two hexadecimal digits of `b` to `out`.
pub fn push_hex_byte(out: &mut String, b: u8)
    ensures
        final(out)@ == old(out)@ + hex_byte(b),
{
    out.append(hex_str(b / 16));
    out.append(hex_str(b % 16));
    assert(final(out)@ =~= old(out)@ + hex_byte(b));
}

/// Digits up to `mid` do not end the run that starts at `pos`.
pub proof fn lemma_digit_run_skip(s: Seq<char>, pos: int, mid: int)
    requires
        0 <= pos <= mid <= s.len(),
        all_digits(s.subrange(pos, mid)),
    ensures
        digit_run_end(s, pos) == digit_run_end(s, mid),
        mid <= digit_run_end(s, pos) <= s.len(),
    decreases mid - pos,
{
    lemma_digit_run_end(s, mid);
    if pos < mid {
        assert(s[pos] == s.subrange(pos, mid)[0]);
        assert forall|i: int| 0 <= i < mid - (pos + 1) implies is_digit(
            #[trigger] s.subrange(pos + 1, mid)[i],
        ) by {
            assert(s.subrange(pos + 1, mid)[i] == s.subrange(pos, mid)[i + 1]);
        }
        lemma_digit_run_skip(s, pos + 1, mid);
    }
}

/// The number written at `pos`, where it fits in 64 bits, with the position
/// behind it.
pub open spec fn small_number_at(s: Seq<char>, pos: int) -> Option<(u64, int)> {
    match number_at(s, pos) {
        Some((n, end)) => if n <= u64::MAX {
            Some((n as u64, end))
        } else {
            None
        },
        None => None,
    }
}

/// Whether `word` stands in `s` at `pos`.
pub open spec fn word_at(s: Seq<char>, pos: int, word: Seq<char>) -> bool {
    0 <= pos && pos + word.len() <= s.len() && s.subrange(pos, pos + word.len()) == word
}

/// The number of characters of a text of plain ASCII.
pub fn text_len(s: &str) -> (n: usize)
    requires
        s.is_ascii(),
    ensures
        n == s@.len(),
{
    proof {
        is_ascii_spec_bytes(s);
    }
    s.as_bytes().len()
}

/// Reads the number written at `pos` and says where it ends.
pub fn read_decimal(s: &str, pos: usize) -> (r: Option<(u64, usize)>)
    requires
        s.is_ascii(),
        pos <= s@.len(),
    ensures
        match r {
            Some((n, end)) => small_number_at(s@, pos as int) == Some((n, end as int)) && pos < end
                <= s@.len(),
            None => small_number_at(s@, pos as int) is None,
        },
{
    broadcast use is_ascii_spec_bytes;

    let len = text_len(s);
    proof {
        lemma_digit_run_end(s@, pos as int);
    }
    if pos >= len {
        return None;
    }
    let first = s.get_ascii(pos);
    if first < 48 || first > 57 {
        return None;
    }
    let mut acc: u64 = (first - 48) as u64;
    let mut i: usize = pos + 1;
    let mut open: bool = true;
    proof {
        let one = s@.subrange(pos as int, i as int);
        assert(one.drop_last() =~= Seq::<char>::empty());
        assert(decimal_value(one.drop_last()) == 0);
    }
    while open && i < len
        invariant
            s.is_ascii(),
            len == s@.len(),
            pos < i <= len,
            first == s@[pos as int] as u8,
            all_digits(s@.subrange(pos as int, i as int)),
            acc == decimal_value(s@.subrange(pos as int, i as int)),
            i - pos > 1 ==> s@[pos as int] != '0',
            !open ==> i < len && !is_digit(s@[i as int]),
        decreases (len - i) + (if open { 1int } else { 0int }),
    {
        let b = s.get_ascii(i);
        if b < 48 || b > 57 {
            open = false;
        } else {
            let ghost longer = s@.subrange(pos as int, i + 1);
            proof {
                assert(longer.drop_last() =~= s@.subrange(pos as int, i as int));
                assert(longer.last() == s@[i as int]);
                assert forall|k: int| 0 <= k < longer.len() implies is_digit(
                    #[trigger] longer[k],
                ) by {
                    if k < longer.len() - 1 {
                        assert(longer[k] == s@.subrange(pos as int, i as int)[k]);
                    }
                }
                lemma_digit_run_skip(s@, pos as int, i + 1);
                lemma_digit_run_end(s@, pos as int);
                let run = s@.subrange(pos as int, digit_run_end(s@, pos as int));
                assert(run.subrange(0, i + 1 - pos) =~= longer);
                lemma_value_monotone(run, i + 1 - pos);
                assert(run[0] == s@[pos as int]);
            }
            if first == 48 {
                return None;
            }
            let d: u64 = (b - 48) as u64;
            if acc > (u64::MAX - d) / 10 {
                return None;
            }
            acc = acc * 10 + d;
            i = i + 1;
        }
    }
    proof {
        lemma_digit_run(s@, pos as int, i as int);
    }
    Some((acc, i))
}

/// Reads the byte that the two hexadecimal digits at `pos` write.
pub fn read_hex_byte(s: &str, pos: usize) -> (r: Option<u8>)
    requires
        s.is_ascii(),
        pos <= s@.len(),
    ensures
        r == (if pos + 2 <= s@.len() && is_hex(s@[pos as int]) && is_hex(s@[pos + 1]) {
            Some(byte_of_hex(s@[pos as int], s@[pos + 1]))
        } else {
            None
        }),
{
    broadcast use is_ascii_spec_bytes;

    let len = text_len(s);
    if len - pos < 2 {
        return None;
    }
    let high = s.get_ascii(pos);
    let low = s.get_ascii(pos + 1);
    let h: u8 = if 48 <= high && high <= 57 {
        high - 48
    } else if 97 <= high && high <= 102 {
        high - 87
    } else {
        return None;
    };
    let l: u8 = if 48 <= low && low <= 57 {
        low - 48
    } else if 97 <= low && low <= 102 {
        low - 87
    } else {
        return None;
    };
    Some(h * 16 + l)
}

/// Whether `word` stands in `s` at `pos`.
pub fn has_word(s: &str, pos: usize, word: &str) -> (r: bool)
    requires
        s.is_ascii(),
        word.is_ascii(),
        pos <= s@.len(),
    ensures
        r == word_at(s@, pos as int, word@),
{
    broadcast use is_ascii_spec_bytes;

    let len = text_len(s);
    let n = text_len(word);
    if len - pos < n {
        return false;
    }
    let mut i: usize = 0;
    while i < n
        invariant
            s.is_ascii(),
            word.is_ascii(),
            len == s@.len(),
            n == word@.len(),
            pos + n <= len,
            0 <= i <= n,
            s@.subrange(pos as int, pos + i) == word@.subrange(0, i as int),
        decreases n - i,
    {
        let a = s.get_ascii(pos + i);
        let b = word.get_ascii(i);
        if a != b {
            proof {
                assert(s@.subrange(pos as int, pos + n)[i as int] == s@[pos + i]);
            }
            return false;
        }
        proof {
            assert(s@.subrange(pos as int, pos + i + 1) =~= s@.subrange(pos as int, pos + i).push(
                s@[pos + i],
            ));
            assert(word@.subrange(0, i + 1) =~= word@.subrange(0, i as int).push(word@[i as int]));
        }
        i = i + 1;
    }
    proof {
        assert(word@.subrange(0, n as int) =~= word@);
    }
    true
}

} // verus!
