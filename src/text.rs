//! The text model of a reply: lines, tab-separated entries, trimming and
//! decimal integers, together with the std calls that do the work.
use vstd::prelude::*;
use vstd::string::StrSliceExecFns;
use vstd::utf8::{decode_utf8, valid_utf8};

verus! {

/// Characters with the Unicode `White_Space` property.
pub open spec fn is_ws(c: char) -> bool {
    ||| ('\u{9}' <= c && c <= '\u{d}')
    ||| c == ' '
    ||| c == '\u{85}'
    ||| c == '\u{a0}'
    ||| c == '\u{1680}'
    ||| ('\u{2000}' <= c && c <= '\u{200a}')
    ||| c == '\u{2028}'
    ||| c == '\u{2029}'
    ||| c == '\u{202f}'
    ||| c == '\u{205f}'
    ||| c == '\u{3000}'
}

/// `s` without its leading whitespace.
pub open spec fn trim_start(s: Seq<char>) -> Seq<char>
    decreases s.len(),
{
    if s.len() > 0 && is_ws(s[0]) {
        trim_start(s.drop_first())
    } else {
        s
    }
}

/// `s` without its trailing whitespace.
pub open spec fn trim_end(s: Seq<char>) -> Seq<char>
    decreases s.len(),
{
    if s.len() > 0 && is_ws(s.last()) {
        trim_end(s.drop_last())
    } else {
        s
    }
}

/// `s` without whitespace at either end.
pub open spec fn trimmed(s: Seq<char>) -> Seq<char> {
    trim_end(trim_start(s))
}

pub open spec fn is_digit(c: char) -> bool {
    '0' <= c && c <= '9'
}

/// A non-empty run of ASCII decimal digits.
pub open spec fn all_digits(s: Seq<char>) -> bool {
    s.len() > 0 && forall|i: int| 0 <= i < s.len() ==> is_digit(#[trigger] s[i])
}

/// The number written by the decimal digits `s`.
pub open spec fn digits_value(s: Seq<char>) -> int
    decreases s.len(),
{
    if s.len() == 0 {
        0
    } else {
        10 * digits_value(s.drop_last()) + (s.last() as int - '0' as int)
    }
}

/// The integer written by `s`: an optional `+` or `-` and then digits.
pub open spec fn decimal_value(s: Seq<char>) -> Option<int> {
    if s.len() > 0 && s[0] == '-' && all_digits(s.drop_first()) {
        Some(-digits_value(s.drop_first()))
    } else if s.len() > 0 && s[0] == '+' && all_digits(s.drop_first()) {
        Some(digits_value(s.drop_first()))
    } else if all_digits(s) {
        Some(digits_value(s))
    } else {
        None
    }
}

/// The `i64` written by `s`, if `s` is a decimal integer in range.
pub open spec fn i64_of(s: Seq<char>) -> Option<i64> {
    match decimal_value(s) {
        Some(v) => if i64::MIN <= v <= i64::MAX {
            Some(v as i64)
        } else {
            None
        },
        None => None,
    }
}

/// Position of the first `c` in `s`, or the length of `s` when there is none.
pub open spec fn find_char(s: Seq<char>, c: char) -> int
    decreases s.len(),
{
    if s.len() == 0 || s[0] == c {
        0
    } else {
        1 + find_char(s.drop_first(), c)
    }
}

/// The entry that a line holds: the text before its first tab as the key and
/// all the text after it as the value, both trimmed. A line without a tab
/// holds none.
pub open spec fn entry(line: Seq<char>) -> Option<(Seq<char>, Seq<char>)> {
    let t = find_char(line, '\t');
    if 0 <= t < line.len() {
        Some((trimmed(line.subrange(0, t)), trimmed(line.subrange(t + 1, line.len() as int))))
    } else {
        None
    }
}

/// The entries of the newline-separated lines of `s`, up to (not including)
/// the first line that holds none.
pub open spec fn entries(s: Seq<char>) -> Seq<(Seq<char>, Seq<char>)>
    decreases s.len(),
{
    let i = find_char(s, '\n');
    if 0 <= i < s.len() {
        match entry(s.subrange(0, i)) {
            Some(e) => seq![e] + entries(s.subrange(i + 1, s.len() as int)),
            None => seq![],
        }
    } else {
        match entry(s) {
            Some(e) => seq![e],
            None => seq![],
        }
    }
}

/// The views of a sequence of owned key/value pairs.
pub open spec fn pair_views(v: Seq<(String, String)>) -> Seq<(Seq<char>, Seq<char>)> {
    v.map_values(|p: (String, String)| (p.0@, p.1@))
}

pub proof fn lemma_find_char(s: Seq<char>, c: char, i: int)
    requires
        0 <= i <= s.len(),
        forall|k: int| 0 <= k < i ==> s[k] != c,
        i == s.len() || s[i] == c,
    ensures
        find_char(s, c) == i,
    decreases s.len(),
{
    if s.len() > 0 && s[0] != c {
        lemma_find_char(s.drop_first(), c, i - 1);
    }
}

/// Relies on `str::trim`: leading and trailing `White_Space` characters removed.
#[verifier::external_body]
fn trim(s: &str) -> (r: &str)
    ensures
        r@ == trimmed(s@),
{
    s.trim()
}

/// Relies on `<i64 as FromStr>::from_str`: an optional sign and decimal digits,
/// in range.
#[verifier::external_body]
pub(crate) fn parse_i64(s: &str) -> (r: std::result::Result<i64, std::num::ParseIntError>)
    ensures
        match r {
            Ok(n) => i64_of(s@) == Some(n),
            Err(_) => i64_of(s@) is None,
        },
{
    s.parse::<i64>()
}

/// Relies on `std::str::from_utf8`: the bytes decoded when they are valid UTF-8.
#[verifier::external_body]
pub(crate) fn utf8_text(b: &[u8]) -> (r: std::result::Result<&str, std::str::Utf8Error>)
    ensures
        match r {
            Ok(s) => valid_utf8(b@) && s@ == decode_utf8(b@),
            Err(_) => !valid_utf8(b@),
        },
{
    std::str::from_utf8(b)
}

/// Whether two texts are the same characters.
pub fn same_text(a: &str, b: &str) -> (r: bool)
    ensures
        r == (a@ == b@),
{
    let n = a.unicode_len();
    if n != b.unicode_len() {
        return false;
    }
    let mut i: usize = 0;
    while i < n
        invariant
            n == a@.len() == b@.len(),
            i <= n,
            forall|k: int| 0 <= k < i ==> a@[k] == b@[k],
        decreases n - i,
    {
        if a.get_char(i) != b.get_char(i) {
            return false;
        }
        i += 1;
    }
    assert(a@ =~= b@);
    true
}

/// The characters of `s`, one by one.
fn chars_of(s: &str) -> (r: Vec<char>)
    ensures
        r@ == s@,
{
    let mut cs: Vec<char> = Vec::new();
    for c in it: s.chars()
        invariant
            cs@ == it.seq().take(it.index() as int),
    {
        cs.push(c);
    }
    assert(cs@ =~= s@);
    cs
}

/// The first position at or after `from`, and before `to`, that holds `c`;
/// `to` when there is none.
fn scan_for(cs: &Vec<char>, from: usize, to: usize, c: char) -> (r: usize)
    requires
        from <= to <= cs@.len(),
    ensures
        from <= r <= to,
        forall|k: int| from <= k < r ==> cs@[k] != c,
        r == to || cs@[r as int] == c,
{
    let mut i = from;
    while i < to && cs[i] != c
        invariant
            from <= i <= to <= cs@.len(),
            forall|k: int| from <= k < i ==> cs@[k] != c,
        decreases to - i,
    {
        i += 1;
    }
    i
}

/// The entries of a reply, as owned key/value strings in the order of their
/// lines.
pub fn split_entries(text: &str) -> (r: Vec<(String, String)>)
    ensures
        pair_views(r@) == entries(text@),
{
    let cs = chars_of(text);
    let n = cs.len();
    let ghost s = text@;
    let mut out: Vec<(String, String)> = Vec::new();
    let mut start: usize = 0;
    assert(s.subrange(0, n as int) =~= s);
    assert(pair_views(out@) =~= Seq::<(Seq<char>, Seq<char>)>::empty());
    loop
        invariant
            s == text@,
            cs@ == s,
            n == s.len(),
            start <= n,
            pair_views(out@) + entries(s.subrange(start as int, n as int)) == entries(s),
        decreases n - start,
    {
        let ghost rest = s.subrange(start as int, n as int);
        let end = scan_for(&cs, start, n, '\n');
        proof {
            lemma_find_char(rest, '\n', end - start);
        }
        let ghost line = rest.subrange(0, end - start);
        assert(line =~= s.subrange(start as int, end as int));
        if end == n {
            assert(rest =~= line);
        }
        let tab = scan_for(&cs, start, end, '\t');
        proof {
            lemma_find_char(line, '\t', tab - start);
        }
        if tab == end {
            assert(entry(line) is None);
            assert(entries(rest) =~= Seq::<(Seq<char>, Seq<char>)>::empty());
            assert(pair_views(out@) + entries(rest) =~= pair_views(out@));
            return out;
        }
        let ghost after = line.subrange(tab - start + 1, line.len() as int);
        assert(line.subrange(0, tab - start) =~= s.subrange(start as int, tab as int));
        assert(after =~= s.subrange(tab + 1, end as int));
        let key = trim(text.substring_char(start, tab)).to_owned();
        let value = trim(text.substring_char(tab + 1, end)).to_owned();
        let ghost before = pair_views(out@);
        out.push((key, value));
        assert(pair_views(out@) =~= before.push((key@, value@)));
        if end == n {
            assert(pair_views(out@) + entries(s.subrange(n as int, n as int)) =~= pair_views(out@));
            assert(entries(rest) =~= seq![(key@, value@)]);
            return out;
        }
        assert(rest.subrange(end - start + 1, rest.len() as int) =~= s.subrange(end + 1, n as int));
        assert(entries(rest) =~= seq![(key@, value@)] + entries(s.subrange(end + 1, n as int)));
        assert(pair_views(out@) + entries(s.subrange(end + 1, n as int)) =~= before + entries(rest));
        start = end + 1;
    }
}

} // verus!
