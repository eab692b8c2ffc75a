//! Character-level text helpers shared by the stream finders, the playlist decoder and the
//! danmaku renderer, and the calls into the URL and regular-expression crates.
use vstd::prelude::*;
use vstd::utf8::{encode_utf8, valid_utf8};

verus! {

/// Whether `needle` occurs in `hay`.
pub open spec fn seq_contains(hay: Seq<char>, needle: Seq<char>) -> bool {
    exists|i: int|
        0 <= i && i + needle.len() <= hay.len() && #[trigger] hay.subrange(i, i + needle.len())
            == needle
}

/// Whether `s` begins with `prefix`.
pub open spec fn seq_starts_with(s: Seq<char>, prefix: Seq<char>) -> bool {
    prefix.len() <= s.len() && s.subrange(0, prefix.len() as int) == prefix
}

/// The part of `s` after the last `c` (all of `s` when `c` does not occur).
pub open spec fn after_last(s: Seq<char>, c: char) -> Seq<char>
    decreases s.len(),
{
    if s.len() == 0 {
        s
    } else if s.last() == c {
        Seq::empty()
    } else {
        after_last(s.drop_last(), c).push(s.last())
    }
}

/// The pieces of `s` between occurrences of `c`: one more piece than there are `c`s,
/// empty pieces included.
pub open spec fn split_on(s: Seq<char>, c: char) -> Seq<Seq<char>>
    decreases s.len(),
{
    if s.len() == 0 {
        seq![Seq::empty()]
    } else {
        let r = split_on(s.drop_last(), c);
        if s.last() == c {
            r.push(Seq::empty())
        } else {
            r.update(r.len() - 1, r.last().push(s.last()))
        }
    }
}

/// Whether `c` is an ASCII decimal digit.
pub open spec fn is_digit(c: char) -> bool {
    '0' <= c <= '9'
}

/// The value of a string of decimal digits.
pub open spec fn digits_value(s: Seq<char>) -> int
    decreases s.len(),
{
    if s.len() == 0 {
        0
    } else {
        10 * digits_value(s.drop_last()) + (s.last() as int - '0' as int)
    }
}

/// The digits of an unsigned decimal literal: `s` without one leading `+`, if any.
pub open spec fn unsigned_digits(s: Seq<char>) -> Seq<char> {
    if s.len() > 0 && s[0] == '+' {
        s.drop_first()
    } else {
        s
    }
}

/// What parsing `s` as a `u64` gives: an optional `+`, at least one digit and nothing else,
/// with a value that fits.
pub open spec fn parse_u64_spec(s: Seq<char>) -> Option<u64> {
    let d = unsigned_digits(s);
    if d.len() > 0 && (forall|i: int| 0 <= i < d.len() ==> is_digit(#[trigger] d[i]))
        && digits_value(d) <= u64::MAX {
        Some(digits_value(d) as u64)
    } else {
        None
    }
}

/// `s` without its leading white space.
pub open spec fn trim_start_spec(s: Seq<char>) -> Seq<char>
    decreases s.len(),
{
    if s.len() > 0 && is_white(s[0]) {
        trim_start_spec(s.drop_first())
    } else {
        s
    }
}

/// `s` without its trailing white space.
pub open spec fn trim_end_spec(s: Seq<char>) -> Seq<char>
    decreases s.len(),
{
    if s.len() > 0 && is_white(s.last()) {
        trim_end_spec(s.drop_last())
    } else {
        s
    }
}

/// Unicode white space (the characters for which `char::is_whitespace` holds).
pub open spec fn is_white(c: char) -> bool {
    ||| '\u{9}' <= c <= '\u{d}'
    ||| c == ' '
    ||| c == '\u{85}'
    ||| c == '\u{a0}'
    ||| c == '\u{1680}'
    ||| '\u{2000}' <= c <= '\u{200a}'
    ||| c == '\u{2028}'
    ||| c == '\u{2029}'
    ||| c == '\u{202f}'
    ||| c == '\u{205f}'
    ||| c == '\u{3000}'
}

/// `s` without its leading and trailing white space.
pub open spec fn trim_spec(s: Seq<char>) -> Seq<char> {
    trim_end_spec(trim_start_spec(s))
}

/// The decimal digits, in order.
pub open spec fn digit_chars() -> Seq<char> {
    seq!['0', '1', '2', '3', '4', '5', '6', '7', '8', '9']
}

/// The decimal numeral of `n`, without leading zeros.
pub open spec fn decimal(n: nat) -> Seq<char>
    decreases n,
{
    if n < 10 {
        seq![digit_chars()[n as int]]
    } else {
        decimal(n / 10).push(digit_chars()[(n % 10) as int])
    }
}

/// Appends one character to a string (`String::push`).
#[verifier::external_body]
pub fn push_char(s: &mut String, c: char)
    ensures
        final(s)@ == old(s)@.push(c),
{
    s.push(c);
}

/// The characters of `s`, in order.
pub fn chars_of(s: &str) -> (res: Vec<char>)
    ensures
        res@ == s@,
{
    let mut res: Vec<char> = Vec::new();
    for c in it: s.chars()
        invariant
            res@ == it.seq().take(it.index() as int),
    {
        res.push(c);
    }
    res
}

/// The string made of `cs[lo..hi]`.
pub fn string_from_range(cs: &Vec<char>, lo: usize, hi: usize) -> (res: String)
    requires
        lo <= hi <= cs.len(),
    ensures
        res@ == cs@.subrange(lo as int, hi as int),
{
    let mut res = String::new();
    let mut i = lo;
    while i < hi
        invariant
            lo <= i <= hi <= cs.len(),
            res@ == cs@.subrange(lo as int, i as int),
        decreases hi - i,
    {
        push_char(&mut res, cs[i]);
        i = i + 1;
    }
    res
}

/// `a` followed by `b`.
pub fn join_str(a: &str, b: &str) -> (res: String)
    ensures
        res@ == a@ + b@,
{
    let mut res = a.to_owned();
    res.append(b);
    res
}

/// The digit character for `d`.
fn digit(d: usize) -> (res: char)
    requires
        d < 10,
    ensures
        res == digit_chars()[d as int],
{
    if d == 0 {
        '0'
    } else if d == 1 {
        '1'
    } else if d == 2 {
        '2'
    } else if d == 3 {
        '3'
    } else if d == 4 {
        '4'
    } else if d == 5 {
        '5'
    } else if d == 6 {
        '6'
    } else if d == 7 {
        '7'
    } else if d == 8 {
        '8'
    } else {
        '9'
    }
}

/// The decimal numeral of `n` (see `decimal`).
pub fn decimal_string(n: usize) -> (res: String)
    ensures
        res@ == decimal(n as nat),
    decreases n,
{
    let mut s = if n >= 10 {
        decimal_string(n / 10)
    } else {
        String::new()
    };
    push_char(&mut s, digit(n % 10));
    s
}

/// Whether `needle` occurs in `hay` at position `i`.
fn occurs_at(hay: &Vec<char>, needle: &Vec<char>, i: usize) -> (res: bool)
    requires
        i + needle.len() <= hay.len(),
    ensures
        res == (hay@.subrange(i as int, i + needle.len()) == needle@),
{
    let mut j: usize = 0;
    while j < needle.len()
        invariant
            i + needle.len() <= hay.len(),
            j <= needle.len(),
            forall|k: int| 0 <= k < j ==> hay@[i + k] == needle@[k],
        decreases needle.len() - j,
    {
        if hay[i + j] != needle[j] {
            assert(hay@.subrange(i as int, i + needle.len())[j as int] != needle@[j as int]);
            return false;
        }
        j = j + 1;
    }
    assert(hay@.subrange(i as int, i + needle.len()) =~= needle@);
    true
}

/// Whether `needle` occurs in `hay`.
pub fn contains_str(hay: &str, needle: &str) -> (res: bool)
    ensures
        res == seq_contains(hay@, needle@),
{
    let h = chars_of(hay);
    let n = chars_of(needle);
    if n.len() > h.len() {
        return false;
    }
    if n.len() == 0 {
        assert(hay@.subrange(0int, 0int + needle@.len()) =~= needle@);
        return true;
    }
    let last = h.len() - n.len();
    let mut i: usize = 0;
    while i <= last
        invariant
            h@ == hay@,
            n@ == needle@,
            last == h.len() - n.len(),
            n.len() > 0,
            i <= last + 1,
            forall|k: int| 0 <= k < i ==> #[trigger] hay@.subrange(k, k + needle@.len()) != needle@,
        decreases last + 1 - i,
    {
        if occurs_at(&h, &n, i) {
            return true;
        }
        i = i + 1;
    }
    false
}

/// Whether `a` and `b` are the same text.
pub fn str_eq(a: &str, b: &str) -> (res: bool)
    ensures
        res == (a@ == b@),
{
    let x = chars_of(a);
    let y = chars_of(b);
    if x.len() != y.len() {
        return false;
    }
    let r = occurs_at(&x, &y, 0);
    assert(a@.subrange(0, y@.len() as int) =~= a@);
    r
}

/// Whether `s` begins with `prefix`.
pub fn starts_with(s: &str, prefix: &str) -> (res: bool)
    ensures
        res == seq_starts_with(s@, prefix@),
{
    let cs = chars_of(s);
    let p = chars_of(prefix);
    if p.len() > cs.len() {
        return false;
    }
    occurs_at(&cs, &p, 0)
}

/// The part of `s` after the last `c` (all of `s` when `c` does not occur).
pub fn after_last_char(s: &str, c: char) -> (res: String)
    ensures
        res@ == after_last(s@, c),
{
    let cs = chars_of(s);
    let mut i = cs.len();
    assert(s@.take(s@.len() as int) =~= s@);
    assert(s@.subrange(s@.len() as int, s@.len() as int) =~= Seq::<char>::empty());
    while i > 0 && cs[i - 1] != c
        invariant
            cs@ == s@,
            i <= cs.len(),
            after_last(s@, c) == after_last(s@.take(i as int), c) + s@.subrange(
                i as int,
                s@.len() as int,
            ),
        decreases i,
    {
        assert(s@.take(i as int).drop_last() =~= s@.take(i - 1));
        assert(s@.subrange(i - 1, s@.len() as int) =~= seq![s@[i - 1]] + s@.subrange(
            i as int,
            s@.len() as int,
        ));
        i = i - 1;
    }
    proof {
        if i == 0 {
            assert(s@.take(0) =~= Seq::<char>::empty());
        }
        assert(s@.take(s@.len() as int) =~= s@);
        assert(s@.subrange(s@.len() as int, s@.len() as int) =~= Seq::<char>::empty());
    }
    string_from_range(&cs, i, cs.len())
}

/// The pieces of `s` between occurrences of `c` (see `split_on`).
pub fn split_char(s: &str, c: char) -> (res: Vec<String>)
    ensures
        res@.map_values(|p: String| p@) == split_on(s@, c),
{
    let cs = chars_of(s);
    let mut pieces: Vec<String> = Vec::new();
    let mut start: usize = 0;
    let mut i: usize = 0;
    assert(s@.take(0) =~= Seq::<char>::empty());
    while i < cs.len()
        invariant
            cs@ == s@,
            start <= i <= cs.len(),
            pieces@.map_values(|p: String| p@).push(cs@.subrange(start as int, i as int))
                == split_on(s@.take(i as int), c),
        decreases cs.len() - i,
    {
        let ghost before = pieces@.map_values(|p: String| p@);
        assert(s@.take(i + 1).drop_last() =~= s@.take(i as int));
        if cs[i] == c {
            let piece = string_from_range(&cs, start, i);
            pieces.push(piece);
            assert(pieces@.map_values(|p: String| p@) =~= before.push(cs@.subrange(start as int, i as int)));
            start = i + 1;
            assert(cs@.subrange(start as int, i + 1) =~= Seq::<char>::empty());
        } else {
            assert(cs@.subrange(start as int, i + 1) =~= cs@.subrange(start as int, i as int).push(cs@[i as int]));
            assert(before.push(cs@.subrange(start as int, i + 1)) =~= before.push(cs@.subrange(start as int, i as int)).update(
                before.len() as int,
                cs@.subrange(start as int, i + 1),
            ));
        }
        i = i + 1;
    }
    let last = string_from_range(&cs, start, cs.len());
    pieces.push(last);
    assert(s@.take(cs.len() as int) =~= s@);
    assert(pieces@.map_values(|p: String| p@) =~= split_on(s@, c));
    pieces
}


/// Whether `c` is white space (see `is_white`).
pub fn char_is_white(c: char) -> (res: bool)
    ensures
        res == is_white(c),
{
    ('\u{9}' <= c && c <= '\u{d}') || c == ' ' || c == '\u{85}' || c == '\u{a0}' || c == '\u{1680}'
        || ('\u{2000}' <= c && c <= '\u{200a}') || c == '\u{2028}' || c == '\u{2029}' || c
        == '\u{202f}' || c == '\u{205f}' || c == '\u{3000}'
}

/// `s` without its leading and trailing white space (see `trim_spec`).
pub fn trim(s: &str) -> (res: String)
    ensures
        res@ == trim_spec(s@),
{
    let cs = chars_of(s);
    let n = cs.len();
    let mut lo: usize = 0;
    assert(s@.subrange(0, n as int) =~= s@);
    while lo < n && char_is_white(cs[lo])
        invariant
            cs@ == s@,
            n == cs.len(),
            lo <= n,
            trim_start_spec(s@) == trim_start_spec(s@.subrange(lo as int, n as int)),
        decreases n - lo,
    {
        assert(s@.subrange(lo as int, n as int).drop_first() =~= s@.subrange(lo + 1, n as int));
        lo = lo + 1;
    }
    let mut hi: usize = n;
    assert(trim_start_spec(s@.subrange(lo as int, n as int)) == s@.subrange(lo as int, n as int));
    while hi > lo && char_is_white(cs[hi - 1])
        invariant
            cs@ == s@,
            n == cs.len(),
            lo <= hi <= n,
            trim_spec(s@) == trim_end_spec(s@.subrange(lo as int, hi as int)),
        decreases hi,
    {
        assert(s@.subrange(lo as int, hi as int).drop_last() =~= s@.subrange(lo as int, hi - 1));
        hi = hi - 1;
    }
    string_from_range(&cs, lo, hi)
}

proof fn lemma_digits_value_prefix(d: Seq<char>, k: int)
    requires
        0 <= k <= d.len(),
        forall|i: int| 0 <= i < d.len() ==> is_digit(#[trigger] d[i]),
    ensures
        digits_value(d.take(k)) <= digits_value(d),
        digits_value(d) >= 0,
    decreases d.len(),
{
    if d.len() > 0 {
        let t = d.drop_last();
        assert forall|i: int| 0 <= i < t.len() implies is_digit(#[trigger] t[i]) by {
            assert(t[i] == d[i]);
        }
        if k == d.len() {
            assert(d.take(k) =~= d);
            lemma_digits_value_prefix(t, 0);
        } else {
            lemma_digits_value_prefix(t, k);
            assert(t.take(k) =~= d.take(k));
        }
        assert(is_digit(d[d.len() - 1]));
    } else {
        assert(d.take(k) =~= d);
    }
}

/// Parses `s` as a `u64` (see `parse_u64_spec`).
pub fn parse_u64(s: &str) -> (res: Option<u64>)
    ensures
        res == parse_u64_spec(s@),
{
    let cs = chars_of(s);
    let n = cs.len();
    let st: usize = if n > 0 && cs[0] == '+' {
        1
    } else {
        0
    };
    let ghost d = unsigned_digits(s@);
    assert(d =~= s@.subrange(st as int, n as int));
    if st == n {
        return None;
    }
    let mut i: usize = st;
    let mut v: u64 = 0;
    assert(d.take(0) =~= Seq::<char>::empty());
    while i < n
        invariant
            cs@ == s@,
            n == cs.len(),
            st <= i <= n,
            d == s@.subrange(st as int, n as int),
            d == unsigned_digits(s@),
            forall|k: int| 0 <= k < i - st ==> is_digit(#[trigger] d[k]),
            v == digits_value(d.take(i - st)),
        decreases n - i,
    {
        let c = cs[i];
        assert(d[i - st] == c);
        if !('0' <= c && c <= '9') {
            assert(!is_digit(d[i - st]));
            return None;
        }
        let dig: u64 = (c as u32 - '0' as u32) as u64;
        assert(d.take(i - st + 1).drop_last() =~= d.take(i - st));
        if v > (u64::MAX - dig) / 10 {
            proof {
                assert(10 * v + dig > u64::MAX) by (nonlinear_arith)
                    requires
                        v > (u64::MAX - dig) / 10,
                        dig <= 9,
                ;
                assert(digits_value(d.take(i - st + 1)) == 10 * v + dig);
                if forall|k: int| 0 <= k < d.len() ==> is_digit(#[trigger] d[k]) {
                    lemma_digits_value_prefix(d, i - st + 1);
                }
            }
            return None;
        }
        v = v * 10 + dig;
        i = i + 1;
    }
    assert(d.take(n - st) =~= d);
    Some(v)
}

/// What `url::Url::parse(s)` and then `path_segments()` and `last()` give: the last
/// segment of the path of the URL `s`, or `None` when `s` is not a URL that can be a base.
pub uninterp spec fn url_last_segment(s: Seq<char>) -> Option<Seq<char>>;

/// The last segment of the path of the URL `s` (`url::Url::parse`, `Url::path_segments`).
/// Trusted: the result is `url_last_segment(s@)`, and a segment holds no `/` (the
/// segments are the pieces of the path between slashes).
#[verifier::external_body]
pub fn url_path_last_segment(s: &str) -> (res: Option<String>)
    ensures
        match res {
            Some(seg) => url_last_segment(s@) == Some(seg@) && !seg@.contains('/'),
            None => url_last_segment(s@) is None,
        },
{
    let url = url::Url::parse(s).ok()?;
    let seg = url.path_segments()?.last()?;
    Some(seg.to_string())
}

/// What group `group` of the first match of the regular expression `pattern` in `text`
/// is (`regex::Regex::new`, `Regex::captures`, `Captures::get`); `None` when the pattern
/// does not compile, does not match, or the group takes no part in the match.
pub uninterp spec fn regex_group(pattern: Seq<char>, text: Seq<char>, group: nat) -> Option<
    Seq<char>,
>;

/// Group `group` of the first match of `pattern` in `text`, by the `regex` crate.
/// Trusted: the result is `regex_group(pattern@, text@, group)`.
#[verifier::external_body]
pub fn regex_capture(pattern: &str, text: &str, group: usize) -> (res: Option<String>)
    ensures
        match res {
            Some(g) => regex_group(pattern@, text@, group as nat) == Some(g@),
            None => regex_group(pattern@, text@, group as nat) is None,
        },
{
    let re = regex::Regex::new(pattern).ok()?;
    let caps = re.captures(text)?;
    caps.get(group).map(|m| m.as_str().to_string())
}

/// What searching `text` for the backtracking regular expression `pattern` with
/// `fancy_regex` gives (`fancy_regex::Regex::new`, `Regex::captures`, group 0): `None` when
/// the pattern does not compile or the search fails (as past its backtracking limit),
/// `Some(None)` when nothing matches, `Some(Some(m))` for the first match `m`.
pub uninterp spec fn fancy_match(pattern: Seq<char>, text: Seq<char>) -> Option<Option<Seq<char>>>;

/// The first match of `pattern` in `text`, by the `fancy_regex` crate.
/// Trusted: the result is `fancy_match(pattern@, text@)`.
#[verifier::external_body]
pub fn fancy_first_match(pattern: &str, text: &str) -> (res: Option<Option<String>>)
    ensures
        match res {
            Some(Some(m)) => fancy_match(pattern@, text@) == Some(Some(m@)),
            Some(None) => fancy_match(pattern@, text@) == Some(None::<Seq<char>>),
            None => fancy_match(pattern@, text@) is None,
        },
{
    let re = fancy_regex::Regex::new(pattern).ok()?;
    match re.captures(text) {
        Ok(Some(caps)) => Some(caps.get(0).map(|m| m.as_str().to_string())),
        Ok(None) => Some(None),
        Err(_) => None,
    }
}

/// The text whose UTF-8 encoding is `bytes` (`std::str::from_utf8`); `None` exactly when
/// `bytes` is not valid UTF-8.
#[verifier::external_body]
pub fn text_from_utf8(bytes: &[u8]) -> (res: Option<String>)
    ensures
        res is Some <==> valid_utf8(bytes@),
        res matches Some(t) ==> encode_utf8(t@) == bytes@,
{
    std::str::from_utf8(bytes).ok().map(|t| t.to_string())
}

} // verus!
