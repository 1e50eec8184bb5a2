//! Character-level scanning of route text: separators, whitespace fields
//! and unsigned decimal numbers.
use vstd::prelude::*;

verus! {

/// The characters that `str::split_ascii_whitespace` separates on.
pub open spec fn is_ascii_ws(c: char) -> bool {
    c == ' ' || c == '\t' || c == '\n' || c == '\r' || c == '\x0C'
}

/// The pieces of `s` between occurrences of `sep`, empty pieces included
/// (as `str::split` gives them).
pub open spec fn split_on(s: Seq<char>, sep: char) -> Seq<Seq<char>>
    decreases s.len(),
{
    if s.len() == 0 {
        seq![Seq::empty()]
    } else {
        let p = split_on(s.drop_last(), sep);
        if s.last() == sep {
            p.push(Seq::empty())
        } else {
            p.update(p.len() - 1, p.last().push(s.last()))
        }
    }
}

/// The maximal runs of non-whitespace characters of `s`, in order
/// (as `str::split_ascii_whitespace` gives them).
pub open spec fn fields(s: Seq<char>) -> Seq<Seq<char>>
    decreases s.len(),
{
    if s.len() == 0 {
        Seq::empty()
    } else {
        let f = fields(s.drop_last());
        let c = s.last();
        if is_ascii_ws(c) {
            f
        } else if s.len() >= 2 && !is_ascii_ws(s[s.len() - 2]) && f.len() > 0 {
            f.update(f.len() - 1, f.last().push(c))
        } else {
            f.push(seq![c])
        }
    }
}

pub open spec fn views(v: Seq<&str>) -> Seq<Seq<char>> {
    v.map_values(|p: &str| p@)
}

/// Whether `s` contains the character `c`.
pub fn contains_char(s: &str, c: char) -> (r: bool)
    ensures
        r == s@.contains(c),
{
    let n = s.unicode_len();
    let mut i: usize = 0;
    while i < n
        invariant
            n == s@.len(),
            i <= n,
            forall|j: int| 0 <= j < i ==> s@[j] != c,
        decreases n - i,
    {
        if s.get_char(i) == c {
            return true;
        }
        i += 1;
    }
    false
}

/// The index of the first occurrence of `c` in `s`, if any.
pub fn find_char(s: &str, c: char) -> (r: Option<usize>)
    ensures
        match r {
            Some(i) => i < s@.len() && s@[i as int] == c && forall|j: int|
                0 <= j < i ==> s@[j] != c,
            None => !s@.contains(c),
        },
{
    let n = s.unicode_len();
    let mut i: usize = 0;
    while i < n
        invariant
            n == s@.len(),
            i <= n,
            forall|j: int| 0 <= j < i ==> s@[j] != c,
        decreases n - i,
    {
        if s.get_char(i) == c {
            return Some(i);
        }
        i += 1;
    }
    None
}

/// Whether `s` begins with `prefix`.
pub fn starts_with(s: &str, prefix: &str) -> (r: bool)
    ensures
        r == (prefix@.len() <= s@.len() && s@.subrange(0, prefix@.len() as int) == prefix@),
{
    let n = s.unicode_len();
    let m = prefix.unicode_len();
    if m > n {
        return false;
    }
    let mut i: usize = 0;
    while i < m
        invariant
            n == s@.len(),
            m == prefix@.len(),
            m <= n,
            i <= m,
            forall|j: int| 0 <= j < i ==> s@[j] == prefix@[j],
        decreases m - i,
    {
        if s.get_char(i) != prefix.get_char(i) {
            assert(s@.subrange(0, m as int)[i as int] != prefix@[i as int]);
            return false;
        }
        i += 1;
    }
    assert(s@.subrange(0, m as int) =~= prefix@);
    true
}

/// Whether `s` and `t` hold the same characters.
pub fn str_eq(s: &str, t: &str) -> (r: bool)
    ensures
        r == (s@ == t@),
{
    let n = s.unicode_len();
    if n != t.unicode_len() {
        return false;
    }
    let r = starts_with(s, t);
    proof {
        assert(s@ =~= s@.subrange(0, n as int));
    }
    r
}

/// Splits `s` at every `sep`.
pub fn split_str(s: &str, sep: char) -> (r: Vec<&str>)
    ensures
        views(r@) == split_on(s@, sep),
{
    let n = s.unicode_len();
    let mut parts: Vec<&str> = Vec::new();
    let mut start: usize = 0;
    let mut i: usize = 0;
    proof {
        assert(s@.subrange(0, 0) =~= Seq::<char>::empty());
        assert(views(parts@).push(s@.subrange(0, 0)) =~= seq![Seq::<char>::empty()]);
    }
    while i < n
        invariant
            n == s@.len(),
            start <= i <= n,
            views(parts@).push(s@.subrange(start as int, i as int)) == split_on(
                s@.subrange(0, i as int),
                sep,
            ),
        decreases n - i,
    {
        let c = s.get_char(i);
        proof {
            let pre = s@.subrange(0, i as int);
            let cur = s@.subrange(0, i as int + 1);
            assert(cur.drop_last() =~= pre);
            assert(cur.last() == c);
        }
        if c == sep {
            let piece = s.substring_char(start, i);
            let ghost old_parts = parts@;
            parts.push(piece);
            proof {
                assert(views(parts@) =~= views(old_parts).push(piece@));
                assert(s@.subrange(i as int + 1, i as int + 1) =~= Seq::<char>::empty());
            }
            start = i + 1;
        } else {
            proof {
                let p = views(parts@).push(s@.subrange(start as int, i as int));
                assert(s@.subrange(start as int, i as int).push(c) =~= s@.subrange(
                    start as int,
                    i as int + 1,
                ));
                assert(p.update(p.len() - 1, p.last().push(c)) =~= views(parts@).push(
                    s@.subrange(start as int, i as int + 1),
                ));
            }
        }
        i += 1;
    }
    let last = s.substring_char(start, n);
    let ghost old_parts = parts@;
    parts.push(last);
    proof {
        assert(views(parts@) =~= views(old_parts).push(last@));
        assert(s@.subrange(0, n as int) =~= s@);
    }
    parts
}

/// Splits `s` into its whitespace-separated fields.
pub fn split_fields(s: &str) -> (r: Vec<&str>)
    ensures
        views(r@) == fields(s@),
{
    let n = s.unicode_len();
    let mut parts: Vec<&str> = Vec::new();
    let mut start: usize = 0;
    let mut in_word = false;
    let mut i: usize = 0;
    while i < n
        invariant
            n == s@.len(),
            start <= i <= n,
            in_word == (i > 0 && !is_ascii_ws(s@[i - 1])),
            in_word ==> start < i,
            fields(s@.subrange(0, i as int)) == if in_word {
                views(parts@).push(s@.subrange(start as int, i as int))
            } else {
                views(parts@)
            },
        decreases n - i,
    {
        let c = s.get_char(i);
        let ghost pre = s@.subrange(0, i as int);
        let ghost cur = s@.subrange(0, i as int + 1);
        proof {
            assert(cur.drop_last() =~= pre);
            assert(cur.last() == c);
        }
        if c == ' ' || c == '\t' || c == '\n' || c == '\r' || c == '\x0C' {
            if in_word {
                let piece = s.substring_char(start, i);
                let ghost old_parts = parts@;
                parts.push(piece);
                proof {
                    assert(views(parts@) =~= views(old_parts).push(piece@));
                }
            }
            in_word = false;
        } else {
            if in_word {
                proof {
                    assert(cur[cur.len() - 2] == s@[i - 1]);
                    let p = views(parts@).push(s@.subrange(start as int, i as int));
                    assert(s@.subrange(start as int, i as int).push(c) =~= s@.subrange(
                        start as int,
                        i as int + 1,
                    ));
                    assert(p.update(p.len() - 1, p.last().push(c)) =~= views(parts@).push(
                        s@.subrange(start as int, i as int + 1),
                    ));
                }
            } else {
                proof {
                    if i > 0 {
                        assert(cur[cur.len() - 2] == s@[i - 1]);
                    }
                    assert(s@.subrange(i as int, i as int + 1) =~= seq![c]);
                }
                start = i;
            }
            in_word = true;
        }
        i += 1;
    }
    proof {
        assert(s@.subrange(0, n as int) =~= s@);
    }
    if in_word {
        let last = s.substring_char(start, n);
        let ghost old_parts = parts@;
        parts.push(last);
        proof {
            assert(views(parts@) =~= views(old_parts).push(last@));
        }
    }
    parts
}

/// Why a decimal number could not be read.
#[derive(Debug, Clone, Copy, PartialEq, Eq, Structural)]
pub enum NumberError {
    /// The text is empty.
    Empty,
    /// A character is not a decimal digit.
    InvalidDigit,
    /// The value exceeds the largest one allowed.
    Overflow,
}

pub open spec fn is_digit(c: char) -> bool {
    '0' <= c <= '9'
}

pub open spec fn digit_value(c: char) -> int {
    c as int - '0' as int
}

/// Reads the digits of `s` left to right, failing at the first character
/// that is not a digit or that takes the value above `max`.
pub open spec fn scan_decimal(s: Seq<char>, max: int) -> Result<int, NumberError>
    decreases s.len(),
{
    if s.len() == 0 {
        Ok(0)
    } else {
        match scan_decimal(s.drop_last(), max) {
            Err(e) => Err(e),
            Ok(v) => if !is_digit(s.last()) {
                Err(NumberError::InvalidDigit)
            } else if v * 10 + digit_value(s.last()) > max {
                Err(NumberError::Overflow)
            } else {
                Ok(v * 10 + digit_value(s.last()))
            },
        }
    }
}

/// An unsigned decimal with an optional leading `+`, no larger than `max`:
/// the grammar of `str::parse` for unsigned integers.
pub open spec fn decimal(s: Seq<char>, max: int) -> Result<int, NumberError> {
    if s.len() == 0 {
        Err(NumberError::Empty)
    } else if s[0] == '+' {
        if s.len() == 1 {
            Err(NumberError::InvalidDigit)
        } else {
            scan_decimal(s.drop_first(), max)
        }
    } else {
        scan_decimal(s, max)
    }
}

/// Once the scan of a prefix fails, the scan of the whole fails the same way.
pub proof fn lemma_scan_decimal_err(s: Seq<char>, m: int, max: int)
    requires
        0 <= m <= s.len(),
        scan_decimal(s.subrange(0, m), max) is Err,
    ensures
        scan_decimal(s, max) == scan_decimal(s.subrange(0, m), max),
    decreases s.len(),
{
    if s.len() > m {
        assert(s.drop_last().subrange(0, m) =~= s.subrange(0, m));
        lemma_scan_decimal_err(s.drop_last(), m, max);
    } else {
        assert(s.subrange(0, m) =~= s);
    }
}

proof fn lemma_scan_tail_err(s: Seq<char>, k: int, m: int, max: int)
    requires
        0 <= k <= m <= s.len(),
        scan_decimal(s.subrange(k, m), max) is Err,
    ensures
        scan_decimal(s.subrange(k, s.len() as int), max) == scan_decimal(s.subrange(k, m), max),
{
    let t = s.subrange(k, s.len() as int);
    assert(t.subrange(0, m - k) =~= s.subrange(k, m));
    lemma_scan_decimal_err(t, m - k, max);
}

/// Reads an unsigned decimal number no larger than `max`.
pub fn parse_decimal(s: &str, max: u64) -> (r: Result<u64, NumberError>)
    ensures
        match r {
            Ok(v) => decimal(s@, max as int) == Ok::<int, NumberError>(v as int),
            Err(e) => decimal(s@, max as int) == Err::<int, NumberError>(e),
        },
{
    let n = s.unicode_len();
    if n == 0 {
        return Err(NumberError::Empty);
    }
    let mut k: usize = 0;
    if s.get_char(0) == '+' {
        if n == 1 {
            return Err(NumberError::InvalidDigit);
        }
        k = 1;
    }
    proof {
        if k == 1 {
            assert(s@.drop_first() =~= s@.subrange(1, n as int));
        } else {
            assert(s@ =~= s@.subrange(0, n as int));
        }
        assert(s@.subrange(k as int, k as int) =~= Seq::<char>::empty());
    }
    let mut v: u64 = 0;
    let mut i: usize = k;
    while i < n
        invariant
            n == s@.len(),
            k <= i <= n,
            v <= max,
            decimal(s@, max as int) == scan_decimal(s@.subrange(k as int, n as int), max as int),
            scan_decimal(s@.subrange(k as int, i as int), max as int) == Ok::<int, NumberError>(
                v as int,
            ),
        decreases n - i,
    {
        let c = s.get_char(i);
        proof {
            assert(s@.subrange(k as int, i as int + 1).drop_last() =~= s@.subrange(
                k as int,
                i as int,
            ));
            assert(s@.subrange(k as int, i as int + 1).last() == c);
        }
        if !('0' <= c && c <= '9') {
            proof {
                lemma_scan_tail_err(s@, k as int, i as int + 1, max as int);
            }
            return Err(NumberError::InvalidDigit);
        }
        let d: u64 = (c as u32 - '0' as u32) as u64;
        let w: u128 = (v as u128) * 10 + d as u128;
        if w > max as u128 {
            proof {
                lemma_scan_tail_err(s@, k as int, i as int + 1, max as int);
            }
            return Err(NumberError::Overflow);
        }
        v = w as u64;
        i += 1;
    }
    Ok(v)
}

} // verus!
