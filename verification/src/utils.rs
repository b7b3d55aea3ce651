//! Small shared helpers: string comparison, decimal parsing for numeric
//! attribute values, XML entity decoding, and the text normalization passes
//! used while accumulating C declaration text.

use vstd::prelude::*;
use vstd::string::StrSliceExecFns;

use crate::errors::{ErrV, ParseError};

verus! {

/// Compares two string slices by content.
pub fn str_eq(a: &str, b: &str) -> (r: bool)
    ensures
        r == (a@ == b@),
{
    let x: String = a.to_owned();
    let y: String = b.to_owned();
    x == y
}

/// Relies on `String::push`: appends exactly one character at the end.
#[verifier::external_body]
pub fn push_char(s: &mut String, c: char)
    ensures
        final(s)@ == old(s)@.push(c),
{
    s.push(c);
}

/// Whether `c` is an ASCII decimal digit.
pub open spec fn is_digit(c: char) -> bool {
    48 <= c as u32 <= 57
}

/// The numeric value of a digit character.
pub open spec fn digit_val(c: char) -> int {
    c as u32 - 48
}

/// Whether every character of `s` is a decimal digit.
pub open spec fn all_digits(s: Seq<char>) -> bool {
    forall|i: int| 0 <= i < s.len() ==> is_digit(s[i])
}

/// The value of `s` read as a big-endian decimal numeral.
pub open spec fn dec_val(s: Seq<char>) -> int
    decreases s.len(),
{
    if s.len() == 0 {
        0
    } else {
        dec_val(s.drop_last()) * 10 + digit_val(s.last())
    }
}

proof fn lemma_dec_val_nonneg(s: Seq<char>)
    requires
        all_digits(s),
    ensures
        dec_val(s) >= 0,
    decreases s.len(),
{
    if s.len() > 0 {
        assert(all_digits(s.drop_last()));
        lemma_dec_val_nonneg(s.drop_last());
    }
}

proof fn lemma_dec_val_prefix_le(s: Seq<char>, k: int)
    requires
        all_digits(s),
        0 <= k <= s.len(),
    ensures
        dec_val(s.take(k)) <= dec_val(s),
    decreases s.len(),
{
    if k == s.len() {
        assert(s.take(k) =~= s);
    } else {
        assert(s.take(k) =~= s.drop_last().take(k));
        assert(all_digits(s.drop_last()));
        lemma_dec_val_prefix_le(s.drop_last(), k);
        lemma_dec_val_nonneg(s.drop_last());
    }
}

/// The digits of `s` starting at char position `start`, read as a decimal
/// number, if they are nonempty, all digits, and the value is at most
/// `limit`.
pub open spec fn spec_parse_digits(s: Seq<char>, start: int, limit: int) -> Option<int> {
    let t = s.skip(start);
    if t.len() > 0 && all_digits(t) && dec_val(t) <= limit {
        Some(dec_val(t))
    } else {
        None
    }
}

fn parse_digits(s: &str, start: usize, limit: u64) -> (r: Option<u64>)
    requires
        start <= s@.len(),
        limit < 0x1000_0000_0000_0000,
    ensures
        match r {
            Some(n) => spec_parse_digits(s@, start as int, limit as int) == Some(n as int),
            None => spec_parse_digits(s@, start as int, limit as int) is None,
        },
{
    let ghost t = s@.skip(start as int);
    let n = s.unicode_len();
    if start >= n {
        return None;
    }
    let mut acc: u64 = 0;
    let mut j: usize = start;
    while j < n
        invariant
            start <= j <= n,
            n == s@.len(),
            t == s@.skip(start as int),
            all_digits(t.take(j - start)),
            acc == dec_val(t.take(j - start)),
            acc <= limit,
            limit < 0x1000_0000_0000_0000,
        decreases n - j,
    {
        let c = s.get_char(j);
        proof {
            assert(t[j - start] == s@[j as int]);
        }
        let u = c as u32;
        if u < 48 || u > 57 {
            proof {
                assert(!is_digit(t[j - start]));
            }
            return None;
        }
        let d = (u - 48) as u64;
        proof {
            assert(t.take(j - start + 1).drop_last() =~= t.take(j - start));
            assert(t.take(j - start + 1).last() == t[j - start]);
        }
        acc = acc * 10 + d;
        j += 1;
        if acc > limit {
            proof {
                assert(t.take(j - start) =~= t.take(j - start));
                if all_digits(t) {
                    lemma_dec_val_prefix_le(t, j - start);
                } else {
                }
            }
            return None;
        }
    }
    proof {
        assert(t.take(n - start) =~= t);
    }
    Some(acc)
}

/// The value of `s` read as `u32::from_str` reads it: an optional leading
/// `+`, then one or more decimal digits, within range.
pub open spec fn spec_parse_u32(s: Seq<char>) -> Option<u32> {
    let start: int = if s.len() > 0 && s[0] == '+' {
        1
    } else {
        0
    };
    match spec_parse_digits(s, start, u32::MAX as int) {
        Some(n) => Some(n as u32),
        None => None,
    }
}

/// Parses a decimal `u32`, exactly when `s` is an optional `+` followed by
/// one or more digits whose value fits.
pub fn parse_u32(s: &str) -> (r: Option<u32>)
    ensures
        r == spec_parse_u32(s@),
{
    let n = s.unicode_len();
    let start: usize = if n > 0 && s.get_char(0) == '+' {
        1
    } else {
        0
    };
    match parse_digits(s, start, 0xFFFF_FFFF) {
        Some(v) => Some(v as u32),
        None => None,
    }
}

/// The value of `s` read as `i32::from_str` reads it: an optional sign, then
/// one or more decimal digits, within the signed range.
pub open spec fn spec_parse_i32(s: Seq<char>) -> Option<i32> {
    if s.len() > 0 && s[0] == '-' {
        match spec_parse_digits(s, 1, 0x8000_0000) {
            Some(n) => Some((-n) as i32),
            None => None,
        }
    } else {
        let start: int = if s.len() > 0 && s[0] == '+' {
            1
        } else {
            0
        };
        match spec_parse_digits(s, start, i32::MAX as int) {
            Some(n) => Some(n as i32),
            None => None,
        }
    }
}

/// Parses a decimal `i32`, exactly when `s` is an optional sign followed by
/// one or more digits whose value fits.
pub fn parse_i32(s: &str) -> (r: Option<i32>)
    ensures
        r == spec_parse_i32(s@),
{
    let n = s.unicode_len();
    if n > 0 && s.get_char(0) == '-' {
        match parse_digits(s, 1, 0x8000_0000) {
            Some(v) => Some((-(v as i64)) as i32),
            None => None,
        }
    } else {
        let start: usize = if n > 0 && s.get_char(0) == '+' {
            1
        } else {
            0
        };
        match parse_digits(s, start, 0x7FFF_FFFF) {
            Some(v) => Some(v as i32),
            None => None,
        }
    }
}

/// The numeric reading of a looked-up attribute value, with both a missing
/// key and an unparsable value reading as zero.  Record constructors only
/// apply this after the scan has ruled unparsable values out.
pub open spec fn u32_or_zero(o: Option<Seq<char>>) -> u32 {
    match o {
        Some(v) => match spec_parse_u32(v) {
            Some(n) => n,
            None => 0,
        },
        None => 0,
    }
}

/// As [`u32_or_zero`], for signed values.
pub open spec fn i32_or_zero(o: Option<Seq<char>>) -> i32 {
    match o {
        Some(v) => match spec_parse_i32(v) {
            Some(n) => n,
            None => 0,
        },
        None => 0,
    }
}

/// The numeric reading of an optional attribute: absent stays absent.
pub open spec fn opt_u32(o: Option<Seq<char>>) -> Option<u32> {
    match o {
        Some(v) => match spec_parse_u32(v) {
            Some(n) => Some(n),
            None => Some(0),
        },
        None => None,
    }
}

/// Whether `s` holds the character `c`.
pub fn str_contains_char(s: &str, c: char) -> (r: bool)
    ensures
        r == s@.contains(c),
{
    let n = s.unicode_len();
    let mut i: usize = 0;
    while i < n
        invariant
            i <= n,
            n == s@.len(),
            forall|j: int| 0 <= j < i ==> s@[j] != c,
        decreases n - i,
    {
        if s.get_char(i) == c {
            return true;
        }
        i += 1;
    }
    false
}

/// Whether `needle` occurs as a contiguous run inside `hay`.
pub open spec fn contains_seq(hay: Seq<char>, needle: Seq<char>) -> bool {
    exists|k: int|
        0 <= k && k + needle.len() <= hay.len() && #[trigger] hay.subrange(k, k + needle.len())
            == needle
}

/// Whether `hay` holds `needle` as a substring.
pub fn str_contains(hay: &str, needle: &str) -> (r: bool)
    ensures
        r == contains_seq(hay@, needle@),
{
    let n = hay.unicode_len();
    let m = needle.unicode_len();
    if m > n {
        return false;
    }
    if m == 0 {
        proof {
            assert(hay@.subrange(0, 0 + needle@.len() as int) =~= needle@);
        }
        return true;
    }
    let mut k: usize = 0;
    while k <= n - m
        invariant
            1 <= m <= n,
            n == hay@.len(),
            m == needle@.len(),
            k <= n - m + 1,
            forall|j: int| 0 <= j < k ==> #[trigger] hay@.subrange(j, j + needle@.len()) != needle@,
        decreases n - k,
    {
        let piece = hay.substring_char(k, k + m);
        if str_eq(piece, needle) {
            proof {
                assert(hay@.subrange(k as int, k as int + needle@.len()) == needle@);
            }
            return true;
        }
        k += 1;
    }
    proof {
        assert forall|j: int| 0 <= j && j + needle@.len() <= hay@.len() implies #[trigger] hay@.subrange(
            j,
            j + needle@.len(),
        ) != needle@ by {
            assert(j < k);
        }
    }
    false
}

/// Whether the text opens with a parenthesis.
pub fn starts_with_paren(s: &str) -> (r: bool)
    ensures
        r == (s@.len() > 0 && s@[0] == '('),
{
    let n = s.unicode_len();
    if n == 0 {
        false
    } else {
        s.get_char(0) == '('
    }
}

/// The text with XML entities decoded: `&lt;` to `<`, `&gt;` to `>`, and
/// `&amp;` to `&`; `None` when an `&` starts any other sequence.
pub open spec fn unescaped(s: Seq<char>) -> Option<Seq<char>>
    decreases s.len(),
{
    if s.len() == 0 {
        Some(Seq::empty())
    } else if s[0] != '&' {
        match unescaped(s.drop_first()) {
            Some(t) => Some(seq![s[0]] + t),
            None => None,
        }
    } else if s.len() >= 4 && s[1] == 'l' && s[2] == 't' && s[3] == ';' {
        match unescaped(s.skip(4)) {
            Some(t) => Some(seq!['<'] + t),
            None => None,
        }
    } else if s.len() >= 4 && s[1] == 'g' && s[2] == 't' && s[3] == ';' {
        match unescaped(s.skip(4)) {
            Some(t) => Some(seq!['>'] + t),
            None => None,
        }
    } else if s.len() >= 5 && s[1] == 'a' && s[2] == 'm' && s[3] == 'p' && s[4] == ';' {
        match unescaped(s.skip(5)) {
            Some(t) => Some(seq!['&'] + t),
            None => None,
        }
    } else {
        None
    }
}

/// Decodes the three XML entities, failing on any other `&` sequence.
pub fn revert_xml_encoding(s: &str) -> (r: Result<String, ParseError>)
    ensures
        match r {
            Ok(t) => unescaped(s@) == Some(t@),
            Err(e) => unescaped(s@) is None && e@ == (ErrV::MalformedAttributeValue {
                key: "text"@,
                raw_value: s@,
            }),
        },
{
    let n = s.unicode_len();
    let mut out = String::new();
    let mut i: usize = 0;
    proof {
        assert(s@.skip(0) =~= s@);
        assert(match unescaped(s@) {
            Some(t) => out@ + t =~= t,
            None => true,
        });
    }
    while i < n
        invariant
            i <= n,
            n == s@.len(),
            match unescaped(s@.skip(i as int)) {
                Some(t) => unescaped(s@) == Some(out@ + t),
                None => unescaped(s@) is None,
            },
        decreases n - i,
    {
        let ghost suf = s@.skip(i as int);
        let c = s.get_char(i);
        proof {
            assert(suf[0] == s@[i as int]);
            assert(suf.drop_first() =~= s@.skip(i as int + 1));
        }
        if c != '&' {
            push_char(&mut out, c);
            proof {
                match unescaped(s@.skip(i as int + 1)) {
                    Some(t) => {
                        assert(out@ + t =~= out@.drop_last() + (seq![suf[0]] + t));
                    },
                    None => {},
                }
            }
            i += 1;
        } else if n - i > 3 && s.get_char(i + 1) == 'l' && s.get_char(i + 2) == 't' && s.get_char(
            i + 3,
        ) == ';' {
            proof {
                assert(suf[1] == s@[i + 1]);
                assert(suf[2] == s@[i + 2]);
                assert(suf[3] == s@[i + 3]);
                assert(suf.skip(4) =~= s@.skip(i + 4));
            }
            push_char(&mut out, '<');
            proof {
                match unescaped(s@.skip(i + 4)) {
                    Some(t) => {
                        assert(out@ + t =~= out@.drop_last() + (seq!['<'] + t));
                    },
                    None => {},
                }
            }
            i += 4;
        } else if n - i > 3 && s.get_char(i + 1) == 'g' && s.get_char(i + 2) == 't' && s.get_char(
            i + 3,
        ) == ';' {
            proof {
                assert(suf[1] == s@[i + 1]);
                assert(suf[2] == s@[i + 2]);
                assert(suf[3] == s@[i + 3]);
                assert(suf.skip(4) =~= s@.skip(i + 4));
            }
            push_char(&mut out, '>');
            proof {
                match unescaped(s@.skip(i + 4)) {
                    Some(t) => {
                        assert(out@ + t =~= out@.drop_last() + (seq!['>'] + t));
                    },
                    None => {},
                }
            }
            i += 4;
        } else if n - i > 4 && s.get_char(i + 1) == 'a' && s.get_char(i + 2) == 'm' && s.get_char(
            i + 3,
        ) == 'p' && s.get_char(i + 4) == ';' {
            proof {
                assert(suf[1] == s@[i + 1]);
                assert(suf[2] == s@[i + 2]);
                assert(suf[3] == s@[i + 3]);
                assert(suf[4] == s@[i + 4]);
                assert(suf.skip(5) =~= s@.skip(i + 5));
            }
            push_char(&mut out, '&');
            proof {
                match unescaped(s@.skip(i + 5)) {
                    Some(t) => {
                        assert(out@ + t =~= out@.drop_last() + (seq!['&'] + t));
                    },
                    None => {},
                }
            }
            i += 5;
        } else {
            proof {
                if suf.len() >= 4 && suf[1] == 'l' && suf[2] == 't' && suf[3] == ';' {
                    assert(suf[1] == s@[i + 1]);
                    assert(suf[2] == s@[i + 2]);
                    assert(suf[3] == s@[i + 3]);
                }
                if suf.len() >= 4 && suf[1] == 'g' && suf[2] == 't' && suf[3] == ';' {
                    assert(suf[1] == s@[i + 1]);
                    assert(suf[2] == s@[i + 2]);
                    assert(suf[3] == s@[i + 3]);
                }
                if suf.len() >= 5 && suf[1] == 'a' && suf[2] == 'm' && suf[3] == 'p' && suf[4]
                    == ';' {
                    assert(suf[1] == s@[i + 1]);
                    assert(suf[2] == s@[i + 2]);
                    assert(suf[3] == s@[i + 3]);
                    assert(suf[4] == s@[i + 4]);
                }
            }
            return Err(ParseError::MalformedAttributeValue {
                key: "text".to_owned(),
                raw_value: s.to_owned(),
            });
        }
    }
    proof {
        assert(s@.skip(n as int) =~= Seq::<char>::empty());
        assert(out@ + Seq::<char>::empty() =~= out@);
    }
    Ok(out)
}

/// The text with every CR LF pair replaced by a lone LF, scanning left to
/// right.
pub open spec fn crlf_to_lf(s: Seq<char>) -> Seq<char>
    decreases s.len(),
{
    if s.len() == 0 {
        Seq::empty()
    } else if s.len() >= 2 && s[0] == '\r' && s[1] == '\n' {
        seq!['\n'] + crlf_to_lf(s.skip(2))
    } else {
        seq![s[0]] + crlf_to_lf(s.drop_first())
    }
}

/// Replaces every CR LF pair with a lone LF.
pub fn normalize_newlines(s: &str) -> (r: String)
    ensures
        r@ == crlf_to_lf(s@),
{
    let n = s.unicode_len();
    let mut out = String::new();
    let mut i: usize = 0;
    proof {
        assert(s@.skip(0) =~= s@);
        assert(out@ + crlf_to_lf(s@) =~= crlf_to_lf(s@));
    }
    while i < n
        invariant
            i <= n,
            n == s@.len(),
            crlf_to_lf(s@) == out@ + crlf_to_lf(s@.skip(i as int)),
        decreases n - i,
    {
        let ghost suf = s@.skip(i as int);
        let c = s.get_char(i);
        proof {
            assert(suf[0] == s@[i as int]);
            assert(suf.drop_first() =~= s@.skip(i as int + 1));
            if suf.len() >= 2 {
                assert(suf[1] == s@[i + 1]);
                assert(suf.skip(2) =~= s@.skip(i + 2));
            }
        }
        if c == '\r' && i + 1 < n && s.get_char(i + 1) == '\n' {
            push_char(&mut out, '\n');
            proof {
                assert(out@ + crlf_to_lf(s@.skip(i + 2)) =~= out@.drop_last() + (seq!['\n']
                    + crlf_to_lf(suf.skip(2))));
            }
            i += 2;
        } else {
            push_char(&mut out, c);
            proof {
                assert(out@ + crlf_to_lf(s@.skip(i + 1)) =~= out@.drop_last() + (seq![suf[0]]
                    + crlf_to_lf(suf.drop_first())));
            }
            i += 1;
        }
    }
    proof {
        assert(s@.skip(n as int) =~= Seq::<char>::empty());
        assert(out@ + Seq::<char>::empty() =~= out@);
    }
    out
}

/// The text with CR LF pairs removed, then every remaining LF removed, and
/// every run of spaces collapsed to a single space: the cleanup applied to
/// accumulated function-pointer declaration text.
pub open spec fn collapse_declaration_text(s: Seq<char>) -> Seq<char> {
    collapse_spaces(strip_lf(strip_crlf(s)))
}

/// The text with every CR LF pair removed, scanning left to right.
pub open spec fn strip_crlf(s: Seq<char>) -> Seq<char>
    decreases s.len(),
{
    if s.len() == 0 {
        Seq::empty()
    } else if s.len() >= 2 && s[0] == '\r' && s[1] == '\n' {
        strip_crlf(s.skip(2))
    } else {
        seq![s[0]] + strip_crlf(s.drop_first())
    }
}

/// The text with every LF removed.
pub open spec fn strip_lf(s: Seq<char>) -> Seq<char>
    decreases s.len(),
{
    if s.len() == 0 {
        Seq::empty()
    } else if s[0] == '\n' {
        strip_lf(s.drop_first())
    } else {
        seq![s[0]] + strip_lf(s.drop_first())
    }
}

/// The text with every run of two or more spaces collapsed to one space.
pub open spec fn collapse_spaces(s: Seq<char>) -> Seq<char>
    decreases s.len(),
{
    if s.len() == 0 {
        Seq::empty()
    } else if s.len() >= 2 && s[0] == ' ' && s[1] == ' ' {
        collapse_spaces(s.drop_first())
    } else {
        seq![s[0]] + collapse_spaces(s.drop_first())
    }
}

/// Applies the declaration-text cleanup: drops CR LF pairs, drops remaining
/// LF characters, and collapses space runs.
pub fn cleanup_declaration_text(s: &str) -> (r: String)
    ensures
        r@ == collapse_declaration_text(s@),
{
    let a = exec_strip_crlf(s);
    let b = exec_strip_lf(a.as_str());
    exec_collapse_spaces(b.as_str())
}

fn exec_strip_crlf(s: &str) -> (r: String)
    ensures
        r@ == strip_crlf(s@),
{
    let n = s.unicode_len();
    let mut out = String::new();
    let mut i: usize = 0;
    proof {
        assert(s@.skip(0) =~= s@);
        assert(out@ + strip_crlf(s@) =~= strip_crlf(s@));
    }
    while i < n
        invariant
            i <= n,
            n == s@.len(),
            strip_crlf(s@) == out@ + strip_crlf(s@.skip(i as int)),
        decreases n - i,
    {
        let ghost suf = s@.skip(i as int);
        let c = s.get_char(i);
        proof {
            assert(suf[0] == s@[i as int]);
            assert(suf.drop_first() =~= s@.skip(i as int + 1));
            if suf.len() >= 2 {
                assert(suf[1] == s@[i + 1]);
                assert(suf.skip(2) =~= s@.skip(i + 2));
            }
        }
        if c == '\r' && i + 1 < n && s.get_char(i + 1) == '\n' {
            i += 2;
        } else {
            push_char(&mut out, c);
            proof {
                assert(out@ + strip_crlf(s@.skip(i + 1)) =~= out@.drop_last() + (seq![suf[0]]
                    + strip_crlf(suf.drop_first())));
            }
            i += 1;
        }
    }
    proof {
        assert(s@.skip(n as int) =~= Seq::<char>::empty());
        assert(out@ + Seq::<char>::empty() =~= out@);
    }
    out
}

fn exec_strip_lf(s: &str) -> (r: String)
    ensures
        r@ == strip_lf(s@),
{
    let n = s.unicode_len();
    let mut out = String::new();
    let mut i: usize = 0;
    proof {
        assert(s@.skip(0) =~= s@);
        assert(out@ + strip_lf(s@) =~= strip_lf(s@));
    }
    while i < n
        invariant
            i <= n,
            n == s@.len(),
            strip_lf(s@) == out@ + strip_lf(s@.skip(i as int)),
        decreases n - i,
    {
        let ghost suf = s@.skip(i as int);
        let c = s.get_char(i);
        proof {
            assert(suf[0] == s@[i as int]);
            assert(suf.drop_first() =~= s@.skip(i as int + 1));
        }
        if c == '\n' {
            i += 1;
        } else {
            push_char(&mut out, c);
            proof {
                assert(out@ + strip_lf(s@.skip(i + 1)) =~= out@.drop_last() + (seq![suf[0]]
                    + strip_lf(suf.drop_first())));
            }
            i += 1;
        }
    }
    proof {
        assert(s@.skip(n as int) =~= Seq::<char>::empty());
        assert(out@ + Seq::<char>::empty() =~= out@);
    }
    out
}

fn exec_collapse_spaces(s: &str) -> (r: String)
    ensures
        r@ == collapse_spaces(s@),
{
    let n = s.unicode_len();
    let mut out = String::new();
    let mut i: usize = 0;
    proof {
        assert(s@.skip(0) =~= s@);
        assert(out@ + collapse_spaces(s@) =~= collapse_spaces(s@));
    }
    while i < n
        invariant
            i <= n,
            n == s@.len(),
            collapse_spaces(s@) == out@ + collapse_spaces(s@.skip(i as int)),
        decreases n - i,
    {
        let ghost suf = s@.skip(i as int);
        let c = s.get_char(i);
        proof {
            assert(suf[0] == s@[i as int]);
            assert(suf.drop_first() =~= s@.skip(i as int + 1));
            if suf.len() >= 2 {
                assert(suf[1] == s@[i + 1]);
            }
        }
        if c == ' ' && i + 1 < n && s.get_char(i + 1) == ' ' {
            i += 1;
        } else {
            push_char(&mut out, c);
            proof {
                assert(out@ + collapse_spaces(s@.skip(i + 1)) =~= out@.drop_last() + (seq![suf[0]]
                    + collapse_spaces(suf.drop_first())));
            }
            i += 1;
        }
    }
    proof {
        assert(s@.skip(n as int) =~= Seq::<char>::empty());
        assert(out@ + Seq::<char>::empty() =~= out@);
    }
    out
}

} // verus!
