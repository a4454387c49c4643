use vstd::prelude::*;

verus! {

/// Poll interval in seconds when none is configured.
pub const DEFAULT_INTERVAL_SECS: u64 = 10;

/// Per-probe wait bound in seconds when none is configured.
pub const DEFAULT_TIMEOUT_SECS: u16 = 1;

/// A startup configuration error; each one is fatal.
#[derive(Clone, Copy, Debug, PartialEq, Eq, Structural)]
pub enum ConfigError {
    /// Neither an inline host list nor a host file was given.
    MissingHosts,
    /// The poll interval is not an unsigned decimal number that fits.
    BadInterval,
    /// The probe timeout is not an unsigned decimal number that fits.
    BadTimeout,
}

pub open spec fn is_digit(c: char) -> bool {
    '0' <= c <= '9'
}

pub open spec fn digit_value(c: char) -> nat {
    (c as nat - '0' as nat) as nat
}

/// The value of a string of decimal digits.
pub open spec fn digits_value(s: Seq<char>) -> nat
    decreases s.len(),
{
    if s.len() == 0 {
        0
    } else {
        digits_value(s.drop_last()) * 10 + digit_value(s.last())
    }
}

/// The digits of an unsigned number: an optional leading `+` is dropped.
pub open spec fn number_digits(s: Seq<char>) -> Seq<char> {
    if s.len() > 0 && s[0] == '+' {
        s.subrange(1, s.len() as int)
    } else {
        s
    }
}

/// Whether `s` is an unsigned decimal number: an optional `+`, then one or
/// more digits.
pub open spec fn is_number(s: Seq<char>) -> bool {
    let d = number_digits(s);
    d.len() > 0 && forall|i: int| 0 <= i < d.len() ==> is_digit(#[trigger] d[i])
}

/// The number that `s` denotes, if it is one and is at most `max`.
pub open spec fn number_at_most(s: Seq<char>, max: nat) -> Option<nat> {
    if is_number(s) && digits_value(number_digits(s)) <= max {
        Some(digits_value(number_digits(s)))
    } else {
        None
    }
}

proof fn lemma_digits_monotone(s: Seq<char>, k: int)
    requires
        0 <= k <= s.len(),
    ensures
        digits_value(s.subrange(0, k)) <= digits_value(s),
    decreases s.len() - k,
{
    if k < s.len() {
        let t = s.subrange(0, k + 1);
        assert(t.drop_last() =~= s.subrange(0, k));
        lemma_digits_monotone(s, k + 1);
        assert(digits_value(s.subrange(0, k)) <= digits_value(t));
    } else {
        assert(s.subrange(0, k) =~= s);
    }
}

/// Reads an unsigned decimal number no larger than `max`.
pub fn parse_number(s: &str, max: u64) -> (r: Option<u64>)
    ensures
        match number_at_most(s@, max as nat) {
            Some(v) => r == Some(v as u64),
            None => r.is_none(),
        },
{
    let n = s.unicode_len();
    let mut start: usize = 0;
    if n > 0 && s.get_char(0) == '+' {
        start = 1;
    }
    let ghost d = number_digits(s@);
    assert(d =~= s@.subrange(start as int, n as int));
    if start == n {
        return None;
    }
    let mut acc: u64 = 0;
    let mut i: usize = start;
    while i < n
        invariant
            start <= i <= n,
            n == s@.len(),
            d == s@.subrange(start as int, n as int),
            d == number_digits(s@),
            forall|k: int| 0 <= k < i - start ==> is_digit(#[trigger] d[k]),
            acc as nat == digits_value(d.subrange(0, i - start)),
            acc <= max,
        decreases n - i,
    {
        let c = s.get_char(i);
        assert(c == d[i - start]);
        if c < '0' || c > '9' {
            assert(!is_digit(d[i - start]));
            return None;
        }
        let v: u64 = (c as u32 - '0' as u32) as u64;
        let ghost pre = d.subrange(0, i - start);
        let ghost next = d.subrange(0, i - start + 1);
        assert(next.drop_last() =~= pre);
        assert(digits_value(next) == acc * 10 + v);
        if v > max || acc > (max - v) / 10 {
            proof {
                assert(acc * 10 + v > max) by (nonlinear_arith)
                    requires
                        v > max || acc > (max - v) / 10,
                        v <= max ==> (max - v) / 10 * 10 <= max - v,
                ;
                lemma_digits_monotone(d, i - start + 1);
            }
            return None;
        }
        proof {
            assert(acc * 10 + v <= max) by (nonlinear_arith)
                requires
                    acc <= (max - v) / 10,
                    v <= max,
            ;
        }
        acc = acc * 10 + v;
        i = i + 1;
    }
    assert(d.subrange(0, i - start) =~= d);
    Some(acc)
}

/// The poll interval: the default when none is given, else the number given.
pub fn interval_setting(value: Option<&str>) -> (r: Result<u64, ConfigError>)
    ensures
        match value {
            None => r == Ok::<u64, ConfigError>(DEFAULT_INTERVAL_SECS),
            Some(s) => match number_at_most(s@, u64::MAX as nat) {
                Some(v) => r == Ok::<u64, ConfigError>(v as u64),
                None => r == Err::<u64, ConfigError>(ConfigError::BadInterval),
            },
        },
{
    match value {
        None => Ok(DEFAULT_INTERVAL_SECS),
        Some(s) => match parse_number(s, u64::MAX) {
            Some(v) => Ok(v),
            None => Err(ConfigError::BadInterval),
        },
    }
}

/// The per-probe timeout: the default when none is given, else the number
/// given, which must fit in 16 bits.
pub fn timeout_setting(value: Option<&str>) -> (r: Result<u16, ConfigError>)
    ensures
        match value {
            None => r == Ok::<u16, ConfigError>(DEFAULT_TIMEOUT_SECS),
            Some(s) => match number_at_most(s@, u16::MAX as nat) {
                Some(v) => r == Ok::<u16, ConfigError>(v as u16),
                None => r == Err::<u16, ConfigError>(ConfigError::BadTimeout),
            },
        },
{
    match value {
        None => Ok(DEFAULT_TIMEOUT_SECS),
        Some(s) => match parse_number(s, u16::MAX as u64) {
            Some(v) => Ok(v as u16),
            None => Err(ConfigError::BadTimeout),
        },
    }
}

/// Unicode white space, the characters that separate hosts in an inline list.
pub open spec fn is_space(c: char) -> bool {
    ('\u{9}' <= c <= '\u{d}') || c == ' ' || c == '\u{85}' || c == '\u{a0}' || c == '\u{1680}'
        || ('\u{2000}' <= c <= '\u{200a}') || c == '\u{2028}' || c == '\u{2029}' || c
        == '\u{202f}' || c == '\u{205f}' || c == '\u{3000}'
}

pub fn space(c: char) -> (r: bool)
    ensures
        r == is_space(c),
{
    ('\u{9}' <= c && c <= '\u{d}') || c == ' ' || c == '\u{85}' || c == '\u{a0}' || c
        == '\u{1680}' || ('\u{2000}' <= c && c <= '\u{200a}') || c == '\u{2028}' || c
        == '\u{2029}' || c == '\u{202f}' || c == '\u{205f}' || c == '\u{3000}'
}

/// Scanning `s` from the left: the words completed so far, and the word
/// under way.
pub open spec fn word_scan(s: Seq<char>) -> (Seq<Seq<char>>, Seq<char>)
    decreases s.len(),
{
    if s.len() == 0 {
        (Seq::empty(), Seq::empty())
    } else {
        let (done, cur) = word_scan(s.drop_last());
        if is_space(s.last()) {
            if cur.len() > 0 {
                (done.push(cur), Seq::empty())
            } else {
                (done, Seq::empty())
            }
        } else {
            (done, cur.push(s.last()))
        }
    }
}

/// The maximal runs of non-space characters of `s`, in order.
pub open spec fn words(s: Seq<char>) -> Seq<Seq<char>> {
    let (done, cur) = word_scan(s);
    if cur.len() > 0 {
        done.push(cur)
    } else {
        done
    }
}

pub open spec fn string_views(v: Seq<String>) -> Seq<Seq<char>> {
    v.map_values(|x: String| x@)
}

/// Splits an inline host list at white space.
pub fn split_hosts(s: &str) -> (r: Vec<String>)
    ensures
        string_views(r@) == words(s@),
{
    let n = s.unicode_len();
    let mut out: Vec<String> = Vec::new();
    let mut start: usize = 0;
    let mut i: usize = 0;
    while i < n
        invariant
            start <= i <= n,
            n == s@.len(),
            word_scan(s@.subrange(0, i as int)) == (
                string_views(out@),
                s@.subrange(start as int, i as int),
            ),
        decreases n - i,
    {
        let c = s.get_char(i);
        let ghost pre = s@.subrange(0, i as int);
        assert(s@.subrange(0, i + 1).drop_last() =~= pre);
        if space(c) {
            if start < i {
                let w = s.substring_char(start, i).to_owned();
                out.push(w);
                assert(string_views(out@) =~= word_scan(pre).0.push(word_scan(pre).1));
            }
            start = i + 1;
            assert(s@.subrange(start as int, i + 1) =~= Seq::<char>::empty());
        } else {
            assert(s@.subrange(start as int, i + 1) =~= s@.subrange(start as int, i as int).push(c));
        }
        i = i + 1;
    }
    assert(s@.subrange(0, n as int) =~= s@);
    if start < n {
        let w = s.substring_char(start, n).to_owned();
        out.push(w);
        assert(string_views(out@) =~= word_scan(s@).0.push(word_scan(s@).1));
    }
    out
}

/// A line without the carriage return that ends it, if any.
pub open spec fn strip_cr(line: Seq<char>) -> Seq<char> {
    if line.len() > 0 && line.last() == '\r' {
        line.drop_last()
    } else {
        line
    }
}

/// Scanning `s` from the left: the lines completed so far, and the line
/// under way.
pub open spec fn line_scan(s: Seq<char>) -> (Seq<Seq<char>>, Seq<char>)
    decreases s.len(),
{
    if s.len() == 0 {
        (Seq::empty(), Seq::empty())
    } else {
        let (done, cur) = line_scan(s.drop_last());
        if s.last() == '\n' {
            (done.push(strip_cr(cur)), Seq::empty())
        } else {
            (done, cur.push(s.last()))
        }
    }
}

/// The lines of a text: each ends at a line feed, which is dropped together
/// with a carriage return just before it; a last line without a line feed
/// counts when it is not empty.
pub open spec fn lines(s: Seq<char>) -> Seq<Seq<char>> {
    let (done, cur) = line_scan(s);
    if cur.len() > 0 {
        done.push(cur)
    } else {
        done
    }
}

/// Splits the text of a host file into its lines, one host each.
pub fn split_lines(s: &str) -> (r: Vec<String>)
    ensures
        string_views(r@) == lines(s@),
{
    let n = s.unicode_len();
    let mut out: Vec<String> = Vec::new();
    let mut start: usize = 0;
    let mut i: usize = 0;
    while i < n
        invariant
            start <= i <= n,
            n == s@.len(),
            line_scan(s@.subrange(0, i as int)) == (
                string_views(out@),
                s@.subrange(start as int, i as int),
            ),
        decreases n - i,
    {
        let c = s.get_char(i);
        let ghost pre = s@.subrange(0, i as int);
        assert(s@.subrange(0, i + 1).drop_last() =~= pre);
        if c == '\n' {
            let mut end: usize = i;
            if start < i && s.get_char(i - 1) == '\r' {
                end = i - 1;
            }
            let ghost cur = s@.subrange(start as int, i as int);
            assert(s@.subrange(start as int, end as int) =~= strip_cr(cur));
            let w = s.substring_char(start, end).to_owned();
            out.push(w);
            assert(string_views(out@) =~= line_scan(pre).0.push(strip_cr(line_scan(pre).1)));
            start = i + 1;
            assert(s@.subrange(start as int, i + 1) =~= Seq::<char>::empty());
        } else {
            assert(s@.subrange(start as int, i + 1) =~= s@.subrange(start as int, i as int).push(c));
        }
        i = i + 1;
    }
    assert(s@.subrange(0, n as int) =~= s@);
    if start < n {
        let w = s.substring_char(start, n).to_owned();
        out.push(w);
        assert(string_views(out@) =~= line_scan(s@).0.push(line_scan(s@).1));
    }
    out
}

/// The host list: the inline list when one is given, else the lines of the
/// host file, else an error.
pub fn hosts_from_config(inline: Option<&str>, file_text: Option<&str>) -> (r: Result<
    Vec<String>,
    ConfigError,
>)
    ensures
        match inline {
            Some(s) => r is Ok && string_views(r->Ok_0@) == words(s@),
            None => match file_text {
                Some(t) => r is Ok && string_views(r->Ok_0@) == lines(t@),
                None => r == Err::<Vec<String>, ConfigError>(ConfigError::MissingHosts),
            },
        },
{
    match inline {
        Some(s) => Ok(split_hosts(s)),
        None => match file_text {
            Some(t) => Ok(split_lines(t)),
            None => Err(ConfigError::MissingHosts),
        },
    }
}

} // verus!
