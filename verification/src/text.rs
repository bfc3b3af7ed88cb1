//! Character-sequence helpers shared by the name, listing and config logic.
//!
//! Every helper is specified over `Seq<char>`, the view of `str` and `String`.
use vstd::prelude::*;

verus! {

// ---------------------------------------------------------------------------
// Specifications
// ---------------------------------------------------------------------------

/// `p` is a prefix of `s`.
pub open spec fn has_prefix(s: Seq<char>, p: Seq<char>) -> bool {
    p.len() <= s.len() && s.subrange(0, p.len() as int) == p
}

/// `p` is a suffix of `s`.
pub open spec fn has_suffix(s: Seq<char>, p: Seq<char>) -> bool {
    p.len() <= s.len() && s.subrange(s.len() - p.len(), s.len() as int) == p
}

/// `p` occurs in `s` starting at index `i`.
pub open spec fn occurs_at(s: Seq<char>, p: Seq<char>, i: int) -> bool {
    0 <= i && i + p.len() <= s.len() && s.subrange(i, i + p.len()) == p
}

/// `p` occurs somewhere in `s` (`str::contains`).
pub open spec fn has_infix(s: Seq<char>, p: Seq<char>) -> bool {
    exists|i: int| occurs_at(s, p, i)
}

/// `s` with the prefix `p` removed, when `s` starts with `p`.
pub open spec fn strip_prefix_spec(s: Seq<char>, p: Seq<char>) -> Option<Seq<char>> {
    if has_prefix(s, p) {
        Some(s.subrange(p.len() as int, s.len() as int))
    } else {
        None
    }
}

/// `s` with the suffix `p` removed, when `s` ends with `p`.
pub open spec fn strip_suffix_spec(s: Seq<char>, p: Seq<char>) -> Option<Seq<char>> {
    if has_suffix(s, p) {
        Some(s.subrange(0, s.len() - p.len()))
    } else {
        None
    }
}

/// `s` without the suffix `p` if it has it, else `s` (`strip_suffix(..).unwrap_or(s)`).
pub open spec fn without_suffix(s: Seq<char>, p: Seq<char>) -> Seq<char> {
    match strip_suffix_spec(s, p) {
        Some(r) => r,
        None => s,
    }
}

/// `s` without the prefix `p` if it has it, else `s`.
pub open spec fn without_prefix(s: Seq<char>, p: Seq<char>) -> Seq<char> {
    match strip_prefix_spec(s, p) {
        Some(r) => r,
        None => s,
    }
}

/// ASCII lowercase of one character (`char::to_ascii_lowercase`).
pub open spec fn ascii_lower(c: char) -> char {
    if 'A' <= c && c <= 'Z' {
        ((c as u32) + 32) as char
    } else {
        c
    }
}

/// ASCII lowercase of a sequence (`str::to_ascii_lowercase`).
pub open spec fn ascii_lower_seq(s: Seq<char>) -> Seq<char> {
    s.map_values(|c: char| ascii_lower(c))
}

/// Case-insensitive ASCII equality (`str::eq_ignore_ascii_case`).
pub open spec fn eq_ignore_ascii_case(a: Seq<char>, b: Seq<char>) -> bool {
    ascii_lower_seq(a) == ascii_lower_seq(b)
}

/// Unicode `White_Space` (`char::is_whitespace`).
pub open spec fn is_ws(c: char) -> bool {
    ('\t' <= c && c <= '\r') || c == ' ' || c == '\u{85}' || c == '\u{a0}' || c == '\u{1680}'
        || ('\u{2000}' <= c && c <= '\u{200a}') || c == '\u{2028}' || c == '\u{2029}' || c
        == '\u{202f}' || c == '\u{205f}' || c == '\u{3000}'
}

/// Number of leading whitespace characters of `s`.
pub open spec fn lead_ws(s: Seq<char>) -> nat
    decreases s.len(),
{
    if s.len() > 0 && is_ws(s[0]) {
        1 + lead_ws(s.drop_first())
    } else {
        0
    }
}

/// Number of trailing whitespace characters of `s`.
pub open spec fn trail_ws(s: Seq<char>) -> nat
    decreases s.len(),
{
    if s.len() > 0 && is_ws(s.last()) {
        1 + trail_ws(s.drop_last())
    } else {
        0
    }
}

/// `s` without trailing whitespace (`str::trim_end`).
pub open spec fn trim_end_spec(s: Seq<char>) -> Seq<char> {
    s.subrange(0, s.len() - trail_ws(s))
}

/// `s` without leading or trailing whitespace (`str::trim`).
pub open spec fn trim_spec(s: Seq<char>) -> Seq<char> {
    let e = trim_end_spec(s);
    e.subrange(lead_ws(e) as int, e.len() as int)
}

/// Pieces of `s` between occurrences of `sep`, with the last (still open) piece apart.
pub open spec fn split_acc(s: Seq<char>, sep: char) -> (Seq<Seq<char>>, Seq<char>)
    decreases s.len(),
{
    if s.len() == 0 {
        (Seq::empty(), Seq::empty())
    } else {
        let (done, cur) = split_acc(s.drop_last(), sep);
        if s.last() == sep {
            (done.push(cur), Seq::empty())
        } else {
            (done, cur.push(s.last()))
        }
    }
}

/// `str::split(sep)`: every piece between separators, empty pieces included.
pub open spec fn split_spec(s: Seq<char>, sep: char) -> Seq<Seq<char>> {
    let (done, cur) = split_acc(s, sep);
    done.push(cur)
}

/// `line` without one trailing carriage return.
pub open spec fn strip_cr(line: Seq<char>) -> Seq<char> {
    if line.len() > 0 && line.last() == '\r' {
        line.drop_last()
    } else {
        line
    }
}

/// `str::lines`: pieces between newlines, without a final empty piece, each
/// without a trailing carriage return.
pub open spec fn lines_spec(s: Seq<char>) -> Seq<Seq<char>> {
    let parts = split_spec(s, '\n');
    let kept = if parts.last().len() == 0 {
        parts.drop_last()
    } else {
        parts
    };
    kept.map_values(|l: Seq<char>| strip_cr(l))
}

/// Whitespace-separated tokens, empty ones dropped, with the still open token apart.
pub open spec fn tokens_acc(s: Seq<char>) -> (Seq<Seq<char>>, Seq<char>)
    decreases s.len(),
{
    if s.len() == 0 {
        (Seq::empty(), Seq::empty())
    } else {
        let (done, cur) = tokens_acc(s.drop_last());
        if is_ws(s.last()) {
            if cur.len() > 0 {
                (done.push(cur), Seq::empty())
            } else {
                (done, cur)
            }
        } else {
            (done, cur.push(s.last()))
        }
    }
}

/// `str::split_whitespace`.
pub open spec fn tokens_spec(s: Seq<char>) -> Seq<Seq<char>> {
    let (done, cur) = tokens_acc(s);
    if cur.len() > 0 {
        done.push(cur)
    } else {
        done
    }
}

/// ASCII decimal digit.
pub open spec fn is_digit(c: char) -> bool {
    '0' <= c && c <= '9'
}

/// Every character of `s` is an ASCII digit.
pub open spec fn all_digits(s: Seq<char>) -> bool {
    forall|i: int| 0 <= i < s.len() ==> is_digit(#[trigger] s[i])
}

/// Numeric value of the digit `c`.
pub open spec fn digit_value(c: char) -> nat {
    ((c as u32) - ('0' as u32)) as nat
}

/// Value of a decimal digit string (most significant digit first).
pub open spec fn digits_value(s: Seq<char>) -> nat
    decreases s.len(),
{
    if s.len() == 0 {
        0
    } else {
        digits_value(s.drop_last()) * 10 + digit_value(s.last())
    }
}

/// `str::parse::<u32>`: optional `+`, then at least one digit, value in range.
pub open spec fn parse_u32_spec(s: Seq<char>) -> Option<u32> {
    let d = if s.len() > 0 && s[0] == '+' {
        s.drop_first()
    } else {
        s
    };
    if d.len() > 0 && all_digits(d) && digits_value(d) <= u32::MAX {
        Some(digits_value(d) as u32)
    } else {
        None
    }
}

/// Decimal rendering of `n` without leading zeros (`u32::to_string`).
pub open spec fn decimal(n: nat) -> Seq<char>
    decreases n,
{
    if n < 10 {
        seq![digit_char(n)]
    } else {
        decimal(n / 10).push(digit_char(n % 10))
    }
}

/// The ASCII digit for `d < 10`.
pub open spec fn digit_char(d: nat) -> char {
    ((d + 48) as u32) as char
}

/// A decimal rendering is a non-empty digit string whose value is `n`
/// (so `str::parse` reads back what `to_string` wrote).
pub proof fn lemma_decimal_digits(n: nat)
    ensures
        decimal(n).len() > 0,
        all_digits(decimal(n)),
        digits_value(decimal(n)) == n,
    decreases n,
{
    if n < 10 {
        let c = digit_char(n);
        assert(c as u32 == n + 48);
        assert(decimal(n) == seq![c]);
        assert(seq![c].drop_last() =~= Seq::<char>::empty());
        assert(digits_value(seq![c]) == digits_value(Seq::<char>::empty()) * 10 + digit_value(c));
    } else {
        lemma_decimal_digits(n / 10);
        let s = decimal(n / 10);
        let c = digit_char(n % 10);
        assert(c as u32 == n % 10 + 48);
        assert(decimal(n) == s.push(c));
        assert(s.push(c).drop_last() =~= s);
        assert forall|i: int| 0 <= i < s.push(c).len() implies is_digit(#[trigger] s.push(c)[i]) by {
            if i < s.len() {
                assert(s.push(c)[i] == s[i]);
            }
        }
        assert((n / 10) * 10 + n % 10 == n) by (nonlinear_arith);
    }
}

/// `str::parse::<u32>` reads back the decimal rendering of a `u32`.
pub proof fn lemma_parse_decimal(n: u32)
    ensures
        parse_u32_spec(decimal(n as nat)) == Some(n),
{
    lemma_decimal_digits(n as nat);
    let d = decimal(n as nat);
    assert(is_digit(d[0]));
}

/// Lexicographic order on character sequences (`str` `Ord`).
pub open spec fn seq_lt(a: Seq<char>, b: Seq<char>) -> bool
    decreases a.len(),
{
    if a.len() == 0 {
        b.len() > 0
    } else if b.len() == 0 {
        false
    } else if a[0] != b[0] {
        a[0] < b[0]
    } else {
        seq_lt(a.drop_first(), b.drop_first())
    }
}

/// The characters of an optional string.
pub open spec fn opt_view(o: Option<String>) -> Option<Seq<char>> {
    match o {
        Some(s) => Some(s@),
        None => None,
    }
}

/// Index of the first `c` in `s`.
pub open spec fn first_char(s: Seq<char>, c: char) -> Option<int> {
    if s.contains(c) {
        Some(choose|i: int| 0 <= i < s.len() && s[i] == c && forall|j: int| 0 <= j < i ==> s[j] != c)
    } else {
        None
    }
}

/// What `split_once_char` hands back pins down the first `c`.
pub proof fn lemma_first_char(s: Seq<char>, c: char, a: Seq<char>, b: Seq<char>)
    requires
        s == a.push(c) + b,
        !a.contains(c),
    ensures
        first_char(s, c) == Some(a.len() as int),
        s.subrange(0, a.len() as int) == a,
        s.subrange(a.len() as int + 1, s.len() as int) == b,
{
    assert(s[a.len() as int] == c);
    assert(s.contains(c));
    let k = choose|i: int| 0 <= i < s.len() && s[i] == c && forall|j: int| 0 <= j < i ==> s[j] != c;
    assert(k == a.len()) by {
        if k < a.len() {
            assert(a[k] == s[k]);
        }
        if k > a.len() {
            assert(s[a.len() as int] == c);
        }
    }
    assert(s.subrange(0, a.len() as int) =~= a);
    assert(s.subrange(a.len() as int + 1, s.len() as int) =~= b);
}

/// Leading `"` characters of `s`.
pub open spec fn lead_q(s: Seq<char>) -> nat
    decreases s.len(),
{
    if s.len() > 0 && s[0] == '"' {
        1 + lead_q(s.drop_first())
    } else {
        0
    }
}

/// Trailing `"` characters of `s`.
pub open spec fn trail_q(s: Seq<char>) -> nat
    decreases s.len(),
{
    if s.len() > 0 && s.last() == '"' {
        1 + trail_q(s.drop_last())
    } else {
        0
    }
}

/// `str::trim_matches('"')`.
pub open spec fn unquote_spec(s: Seq<char>) -> Seq<char> {
    let e = s.subrange(0, s.len() - trail_q(s));
    e.subrange(lead_q(e) as int, e.len() as int)
}

proof fn lemma_trail_q_bound(s: Seq<char>)
    ensures
        trail_q(s) <= s.len(),
    decreases s.len(),
{
    if s.len() > 0 && s.last() == '"' {
        lemma_trail_q_bound(s.drop_last());
    }
}

proof fn lemma_lead_q_bound(s: Seq<char>)
    ensures
        lead_q(s) <= s.len(),
    decreases s.len(),
{
    if s.len() > 0 && s[0] == '"' {
        lemma_lead_q_bound(s.drop_first());
    }
}

/// `str::trim_matches('"')`, owned.
pub fn unquote(s: &str) -> (r: String)
    ensures
        r@ == unquote_spec(s@),
{
    let x = to_chars(s);
    let mut hi = x.len();
    assert(x@.take(hi as int) =~= x@);
    while hi > 0 && x[hi - 1] == '"'
        invariant
            hi <= x.len(),
            x@ == s@,
            trail_q(x@) == (x.len() - hi) + trail_q(x@.take(hi as int)),
        decreases hi,
    {
        assert(x@.take(hi as int).drop_last() =~= x@.take(hi - 1));
        hi -= 1;
    }
    assert(trail_q(x@.take(hi as int)) == 0);
    proof {
        lemma_trail_q_bound(x@);
    }
    assert(x@.subrange(0, x@.len() - trail_q(x@)) =~= x@.take(hi as int));
    let mut lo: usize = 0;
    while lo < hi && x[lo] == '"'
        invariant
            lo <= hi <= x.len(),
            lead_q(x@.take(hi as int)) == lo + lead_q(x@.subrange(lo as int, hi as int)),
        decreases hi - lo,
    {
        assert(x@.subrange(lo as int, hi as int).drop_first() =~= x@.subrange(lo + 1, hi as int));
        lo += 1;
    }
    assert(lead_q(x@.subrange(lo as int, hi as int)) == 0);
    assert(x@.take(hi as int).subrange(lo as int, hi as int) =~= x@.subrange(lo as int, hi as int));
    from_chars_range(&x, lo, hi)
}

/// `str::split_once(pat)`: the text before the first occurrence of `pat` and
/// the text after it.
pub open spec fn split_once_spec(s: Seq<char>, pat: Seq<char>) -> Option<(Seq<char>, Seq<char>)> {
    if exists|i: int| #[trigger] occurs_at(s, pat, i) {
        let i = choose|i: int| #[trigger] occurs_at(s, pat, i) && forall|j: int| 0 <= j < i ==> !occurs_at(s, pat, j);
        Some((s.subrange(0, i), s.subrange(i + pat.len(), s.len() as int)))
    } else {
        None
    }
}

/// `str::split_once(pat)`, owned.
pub fn split_once_str(s: &str, pat: &str) -> (r: Option<(String, String)>)
    ensures
        match r {
            Some((a, b)) => split_once_spec(s@, pat@) == Some((a@, b@)),
            None => split_once_spec(s@, pat@) is None,
        },
{
    let x = to_chars(s);
    let p = to_chars(pat);
    let found = find_from(&x, &p, 0);
    match found {
        None => {
            assert(!exists|i: int| #[trigger] occurs_at(s@, pat@, i)) by {
                assert forall|i: int| !#[trigger] occurs_at(s@, pat@, i) by {
                    if i < 0 {
                    }
                }
            }
            None
        },
        Some(i) => {
            let ghost k = choose|k: int| #[trigger] occurs_at(s@, pat@, k) && forall|j: int| 0 <= j < k ==> !occurs_at(s@, pat@, j);
            assert(occurs_at(s@, pat@, i as int));
            assert(k == i as int) by {
                if k < i {
                    assert(!occurs_at(s@, pat@, k));
                }
                if k > i {
                    assert(!occurs_at(s@, pat@, i as int));
                }
            }
            assert(i + p.len() <= x.len());
            let a = from_chars_range(&x, 0, i);
            let b = from_chars_range(&x, i + p.len(), x.len());
            Some((a, b))
        },
    }
}

/// Name for the result of `str::to_lowercase` (Unicode case mapping).
pub uninterp spec fn lowercase(s: Seq<char>) -> Seq<char>;

// ---------------------------------------------------------------------------
// Trusted std calls without a vstd specification
// ---------------------------------------------------------------------------

/// `String::push`: the string gains `c` at its end.
#[verifier::external_body]
pub(crate) fn push_char(s: &mut String, c: char)
    ensures
        final(s)@ == old(s)@.push(c),
{
    s.push(c);
}

/// Every character is ASCII.
pub open spec fn all_ascii(s: Seq<char>) -> bool {
    forall|i: int| 0 <= i < s.len() ==> (#[trigger] s[i] as u32) < 128
}

/// `str::to_lowercase`: the result is the Unicode lowercase mapping of `s`,
/// named `lowercase` (the mapping tables are not restated); on ASCII text it
/// maps `A`–`Z` to `a`–`z` and keeps every other character, as std documents.
#[verifier::external_body]
pub(crate) fn to_lowercase(s: &str) -> (r: String)
    ensures
        r@ == lowercase(s@),
        all_ascii(s@) ==> r@ == ascii_lower_seq(s@),
{
    s.to_lowercase()
}

// ---------------------------------------------------------------------------
// Executable helpers
// ---------------------------------------------------------------------------

/// The characters of `s`, in order.
pub fn to_chars(s: &str) -> (v: Vec<char>)
    ensures
        v@ == s@,
{
    let mut v: Vec<char> = Vec::new();
    for c in it: s.chars()
        invariant
            v@ == it.seq().take(it.index() as int),
    {
        v.push(c);
    }
    v
}

/// A string holding exactly `v`.
pub fn from_chars(v: &[char]) -> (s: String)
    ensures
        s@ == v@,
{
    let mut s = String::new();
    let mut i: usize = 0;
    while i < v.len()
        invariant
            i <= v.len(),
            s@ == v@.take(i as int),
        decreases v.len() - i,
    {
        push_char(&mut s, v[i]);
        assert(v@.take(i as int + 1) =~= v@.take(i as int).push(v@[i as int]));
        i += 1;
    }
    assert(v@.take(v.len() as int) =~= v@);
    s
}

/// A string holding `v[lo..hi]`.
pub fn from_chars_range(v: &[char], lo: usize, hi: usize) -> (s: String)
    requires
        lo <= hi <= v.len(),
    ensures
        s@ == v@.subrange(lo as int, hi as int),
{
    let mut s = String::new();
    let mut i: usize = lo;
    while i < hi
        invariant
            lo <= i <= hi <= v.len(),
            s@ == v@.subrange(lo as int, i as int),
        decreases hi - i,
    {
        push_char(&mut s, v[i]);
        assert(v@.subrange(lo as int, i as int + 1) =~= v@.subrange(lo as int, i as int).push(
            v@[i as int],
        ));
        i += 1;
    }
    s
}

/// An owned copy of `s`.
pub fn own(s: &str) -> (r: String)
    ensures
        r@ == s@,
{
    let v = to_chars(s);
    from_chars(&v)
}

/// `a` followed by `b`.
pub fn concat(a: &str, b: &str) -> (r: String)
    ensures
        r@ == a@ + b@,
{
    let mut v = to_chars(a);
    let w = to_chars(b);
    let mut i: usize = 0;
    while i < w.len()
        invariant
            i <= w.len(),
            w@ == b@,
            v@ == a@ + w@.take(i as int),
        decreases w.len() - i,
    {
        v.push(w[i]);
        assert(w@.take(i as int + 1) =~= w@.take(i as int).push(w@[i as int]));
        i += 1;
    }
    assert(w@.take(w.len() as int) =~= w@);
    from_chars(&v)
}

/// `a`, `b` and `c` one after another.
pub fn concat3(a: &str, b: &str, c: &str) -> (r: String)
    ensures
        r@ == a@ + b@ + c@,
{
    let ab = concat(a, b);
    concat(ab.as_str(), c)
}

/// Whether `a[lo..lo + p.len()] == p` (false when it runs past the end).
pub fn chars_match_at(a: &[char], lo: usize, p: &[char]) -> (b: bool)
    ensures
        b == occurs_at(a@, p@, lo as int),
{
    if lo > a.len() || p.len() > a.len() - lo {
        return false;
    }
    let mut i: usize = 0;
    while i < p.len()
        invariant
            i <= p.len(),
            lo + p.len() <= a.len(),
            forall|j: int| 0 <= j < i ==> a@[lo + j] == p@[j],
        decreases p.len() - i,
    {
        if a[lo + i] != p[i] {
            assert(a@.subrange(lo as int, lo + p.len())[i as int] != p@[i as int]);
            return false;
        }
        i += 1;
    }
    assert(a@.subrange(lo as int, lo + p.len()) =~= p@);
    true
}

/// Equality of two character slices.
pub fn chars_eq(a: &[char], b: &[char]) -> (r: bool)
    ensures
        r == (a@ == b@),
{
    if a.len() != b.len() {
        return false;
    }
    let r = chars_match_at(a, 0, b);
    assert(a@.subrange(0, b@.len() as int) =~= a@);
    r
}

/// Equality of two strings.
pub fn str_eq(a: &str, b: &str) -> (r: bool)
    ensures
        r == (a@ == b@),
{
    let x = to_chars(a);
    let y = to_chars(b);
    chars_eq(&x, &y)
}

/// `str::starts_with`.
pub fn starts_with(s: &str, p: &str) -> (r: bool)
    ensures
        r == has_prefix(s@, p@),
{
    let x = to_chars(s);
    let y = to_chars(p);
    chars_match_at(&x, 0, &y)
}

/// `str::ends_with`.
pub fn ends_with(s: &str, p: &str) -> (r: bool)
    ensures
        r == has_suffix(s@, p@),
{
    let x = to_chars(s);
    let y = to_chars(p);
    if y.len() > x.len() {
        return false;
    }
    chars_match_at(&x, x.len() - y.len(), &y)
}

/// First index at or after `from` where `p` occurs in `a`.
pub fn find_from(a: &[char], p: &[char], from: usize) -> (r: Option<usize>)
    ensures
        match r {
            Some(i) => from <= i && occurs_at(a@, p@, i as int) && forall|j: int|
                from <= j < i ==> !occurs_at(a@, p@, j),
            None => forall|j: int| from <= j ==> !occurs_at(a@, p@, j),
        },
{
    if p.len() > a.len() {
        return None;
    }
    let last = a.len() - p.len();
    let mut i = from;
    while i <= last
        invariant
            from <= i,
            last + p.len() == a.len(),
            forall|j: int| from <= j < i ==> !occurs_at(a@, p@, j),
        decreases last + 1 - i,
    {
        if chars_match_at(a, i, p) {
            return Some(i);
        }
        if i == last {
            return None;
        }
        i += 1;
    }
    None
}

/// `str::contains` on character slices.
pub fn chars_contain(a: &[char], p: &[char]) -> (r: bool)
    ensures
        r == has_infix(a@, p@),
{
    match find_from(a, p, 0) {
        Some(i) => true,
        None => {
            assert forall|j: int| !occurs_at(a@, p@, j) by {
                if j < 0 {
                }
            }
            false
        },
    }
}

/// `str::contains`.
pub fn contains(s: &str, p: &str) -> (r: bool)
    ensures
        r == has_infix(s@, p@),
{
    let x = to_chars(s);
    let y = to_chars(p);
    chars_contain(&x, &y)
}

/// `str::strip_prefix`, as an owned string.
pub fn strip_prefix(s: &str, p: &str) -> (r: Option<String>)
    ensures
        match r {
            Some(t) => strip_prefix_spec(s@, p@) == Some(t@),
            None => strip_prefix_spec(s@, p@) is None,
        },
{
    let x = to_chars(s);
    let y = to_chars(p);
    if chars_match_at(&x, 0, &y) {
        Some(from_chars_range(&x, y.len(), x.len()))
    } else {
        None
    }
}

/// `str::strip_suffix`, as an owned string.
pub fn strip_suffix(s: &str, p: &str) -> (r: Option<String>)
    ensures
        match r {
            Some(t) => strip_suffix_spec(s@, p@) == Some(t@),
            None => strip_suffix_spec(s@, p@) is None,
        },
{
    let x = to_chars(s);
    let y = to_chars(p);
    if y.len() <= x.len() && chars_match_at(&x, x.len() - y.len(), &y) {
        Some(from_chars_range(&x, 0, x.len() - y.len()))
    } else {
        None
    }
}

/// `s.strip_suffix(p).unwrap_or(s)`, owned.
pub fn drop_suffix(s: &str, p: &str) -> (r: String)
    ensures
        r@ == without_suffix(s@, p@),
{
    match strip_suffix(s, p) {
        Some(t) => t,
        None => own(s),
    }
}

/// `s.strip_prefix(p).unwrap_or(s)`, owned.
pub fn drop_prefix(s: &str, p: &str) -> (r: String)
    ensures
        r@ == without_prefix(s@, p@),
{
    match strip_prefix(s, p) {
        Some(t) => t,
        None => own(s),
    }
}

/// ASCII lowercase of one character.
pub fn lower_char(c: char) -> (r: char)
    ensures
        r == ascii_lower(c),
{
    if 'A' <= c && c <= 'Z' {
        let u: u8 = (c as u8) + 32;
        u as char
    } else {
        c
    }
}

/// `str::to_ascii_lowercase`.
pub fn to_ascii_lowercase(s: &str) -> (r: String)
    ensures
        r@ == ascii_lower_seq(s@),
{
    let x = to_chars(s);
    let mut v: Vec<char> = Vec::new();
    let mut i: usize = 0;
    while i < x.len()
        invariant
            i <= x.len(),
            x@ == s@,
            v@ == ascii_lower_seq(x@.take(i as int)),
        decreases x.len() - i,
    {
        let c = lower_char(x[i]);
        v.push(c);
        assert(ascii_lower_seq(x@.take(i as int + 1)) =~= ascii_lower_seq(x@.take(i as int)).push(
            ascii_lower(x@[i as int]),
        ));
        i += 1;
    }
    assert(x@.take(x.len() as int) =~= x@);
    from_chars(&v)
}

/// `s` with every `from` replaced by `to` (`str::replace` with one character).
pub open spec fn replace_char_spec(s: Seq<char>, from: char, to: char) -> Seq<char> {
    s.map_values(|c: char| if c == from { to } else { c })
}

/// `str::replace(from, to)` for single characters.
pub fn replace_char(s: &str, from: char, to: char) -> (r: String)
    ensures
        r@ == replace_char_spec(s@, from, to),
{
    let x = to_chars(s);
    let mut v: Vec<char> = Vec::new();
    let mut i: usize = 0;
    while i < x.len()
        invariant
            i <= x.len(),
            x@ == s@,
            v@ == replace_char_spec(x@.take(i as int), from, to),
        decreases x.len() - i,
    {
        let c = if x[i] == from { to } else { x[i] };
        v.push(c);
        assert(replace_char_spec(x@.take(i as int + 1), from, to) =~= replace_char_spec(
            x@.take(i as int),
            from,
            to,
        ).push(c));
        i += 1;
    }
    assert(x@.take(x.len() as int) =~= x@);
    from_chars(&v)
}

/// `str::eq_ignore_ascii_case`.
pub fn eq_ignore_case(a: &str, b: &str) -> (r: bool)
    ensures
        r == eq_ignore_ascii_case(a@, b@),
{
    let x = to_ascii_lowercase(a);
    let y = to_ascii_lowercase(b);
    str_eq(x.as_str(), y.as_str())
}

/// `char::is_whitespace`.
pub fn is_whitespace(c: char) -> (r: bool)
    ensures
        r == is_ws(c),
{
    ('\t' <= c && c <= '\r') || c == ' ' || c == '\u{85}' || c == '\u{a0}' || c == '\u{1680}'
        || ('\u{2000}' <= c && c <= '\u{200a}') || c == '\u{2028}' || c == '\u{2029}' || c
        == '\u{202f}' || c == '\u{205f}' || c == '\u{3000}'
}

proof fn lemma_trail_ws_bound(s: Seq<char>)
    ensures
        trail_ws(s) <= s.len(),
    decreases s.len(),
{
    if s.len() > 0 && is_ws(s.last()) {
        lemma_trail_ws_bound(s.drop_last());
    }
}

proof fn lemma_lead_ws_bound(s: Seq<char>)
    ensures
        lead_ws(s) <= s.len(),
    decreases s.len(),
{
    if s.len() > 0 && is_ws(s[0]) {
        lemma_lead_ws_bound(s.drop_first());
    }
}

/// `str::trim`.
pub fn trim(s: &str) -> (r: String)
    ensures
        r@ == trim_spec(s@),
{
    let x = to_chars(s);
    let mut hi = x.len();
    assert(x@.take(hi as int) =~= x@);
    while hi > 0 && is_whitespace(x[hi - 1])
        invariant
            hi <= x.len(),
            x@ == s@,
            trail_ws(x@) == (x.len() - hi) + trail_ws(x@.take(hi as int)),
        decreases hi,
    {
        assert(x@.take(hi as int).drop_last() =~= x@.take(hi - 1));
        hi -= 1;
    }
    assert(trail_ws(x@.take(hi as int)) == 0);
    proof {
        lemma_trail_ws_bound(x@);
    }
    assert(trim_end_spec(x@) =~= x@.take(hi as int));
    let mut lo: usize = 0;
    while lo < hi && is_whitespace(x[lo])
        invariant
            lo <= hi <= x.len(),
            lead_ws(x@.take(hi as int)) == lo + lead_ws(x@.subrange(lo as int, hi as int)),
        decreases hi - lo,
    {
        assert(x@.subrange(lo as int, hi as int).drop_first() =~= x@.subrange(lo + 1, hi as int));
        lo += 1;
    }
    assert(lead_ws(x@.subrange(lo as int, hi as int)) == 0);
    assert(x@.take(hi as int).subrange(lo as int, hi as int) =~= x@.subrange(lo as int, hi as int));
    from_chars_range(&x, lo, hi)
}

proof fn lemma_split_acc_step(s: Seq<char>, sep: char, i: int)
    requires
        0 <= i < s.len(),
    ensures
        split_acc(s.take(i + 1), sep) == (if s[i] == sep {
            (split_acc(s.take(i), sep).0.push(split_acc(s.take(i), sep).1), Seq::<char>::empty())
        } else {
            (split_acc(s.take(i), sep).0, split_acc(s.take(i), sep).1.push(s[i]))
        }),
{
    assert(s.take(i + 1).drop_last() =~= s.take(i));
}

/// `str::split(sep)` with every piece owned.
pub fn split_char(s: &str, sep: char) -> (r: Vec<String>)
    ensures
        r@.map_values(|t: String| t@) == split_spec(s@, sep),
{
    let x = to_chars(s);
    let mut done: Vec<String> = Vec::new();
    let mut cur: Vec<char> = Vec::new();
    let mut i: usize = 0;
    while i < x.len()
        invariant
            i <= x.len(),
            x@ == s@,
            done@.map_values(|t: String| t@) == split_acc(x@.take(i as int), sep).0,
            cur@ == split_acc(x@.take(i as int), sep).1,
        decreases x.len() - i,
    {
        proof {
            lemma_split_acc_step(x@, sep, i as int);
        }
        if x[i] == sep {
            let piece = from_chars(&cur);
            let ghost old_done = done@;
            done.push(piece);
            assert(done@.map_values(|t: String| t@) =~= old_done.map_values(|t: String| t@).push(
                cur@,
            ));
            cur = Vec::new();
        } else {
            cur.push(x[i]);
        }
        i += 1;
    }
    assert(x@.take(x.len() as int) =~= x@);
    let piece = from_chars(&cur);
    let ghost old_done = done@;
    done.push(piece);
    assert(done@.map_values(|t: String| t@) =~= old_done.map_values(|t: String| t@).push(cur@));
    done
}

/// `str::lines`, every line owned.
pub fn lines(s: &str) -> (r: Vec<String>)
    ensures
        r@.map_values(|t: String| t@) == lines_spec(s@),
{
    let parts = split_char(s, '\n');
    let ghost pv = parts@.map_values(|t: String| t@);
    assert(pv.len() == parts.len());
    let n = if parts[parts.len() - 1].as_str().is_empty() {
        parts.len() - 1
    } else {
        parts.len()
    };
    let ghost kept = if pv.last().len() == 0 {
        pv.drop_last()
    } else {
        pv
    };
    assert(kept.len() == n);
    let mut out: Vec<String> = Vec::new();
    let mut i: usize = 0;
    while i < n
        invariant
            i <= n <= parts.len(),
            pv == parts@.map_values(|t: String| t@),
            kept.len() == n,
            forall|j: int| 0 <= j < n ==> kept[j] == pv[j],
            out@.map_values(|t: String| t@) == kept.take(i as int).map_values(
                |l: Seq<char>| strip_cr(l),
            ),
        decreases n - i,
    {
        let line = parts[i].as_str();
        let x = to_chars(line);
        let t = if x.len() > 0 && x[x.len() - 1] == '\r' {
            from_chars_range(&x, 0, x.len() - 1)
        } else {
            from_chars(&x)
        };
        assert(x@.subrange(0, x.len() - 1) =~= x@.drop_last());
        let ghost old_out = out@;
        out.push(t);
        assert(out@.map_values(|t: String| t@) =~= old_out.map_values(|t: String| t@).push(
            strip_cr(kept[i as int]),
        ));
        assert(kept.take(i as int + 1).map_values(|l: Seq<char>| strip_cr(l)) =~= kept.take(
            i as int,
        ).map_values(|l: Seq<char>| strip_cr(l)).push(strip_cr(kept[i as int])));
        i += 1;
    }
    assert(kept.take(n as int) =~= kept);
    out
}

/// First occurrence of `sep`: the text before it and the text after it.
pub fn split_once_char(s: &str, sep: char) -> (r: Option<(String, String)>)
    ensures
        match r {
            Some((a, b)) => s@ == a@.push(sep) + b@ && !a@.contains(sep),
            None => !s@.contains(sep),
        },
{
    let x = to_chars(s);
    let mut i: usize = 0;
    while i < x.len()
        invariant
            i <= x.len(),
            x@ == s@,
            forall|j: int| 0 <= j < i ==> x@[j] != sep,
        decreases x.len() - i,
    {
        if x[i] == sep {
            let a = from_chars_range(&x, 0, i);
            let b = from_chars_range(&x, i + 1, x.len());
            assert(x@ =~= x@.subrange(0, i as int).push(sep) + x@.subrange(i + 1, x.len() as int));
            return Some((a, b));
        }
        i += 1;
    }
    None
}

proof fn lemma_tokens_acc_step(s: Seq<char>, i: int)
    requires
        0 <= i < s.len(),
    ensures
        tokens_acc(s.take(i + 1)) == (if is_ws(s[i]) {
            if tokens_acc(s.take(i)).1.len() > 0 {
                (tokens_acc(s.take(i)).0.push(tokens_acc(s.take(i)).1), Seq::<char>::empty())
            } else {
                tokens_acc(s.take(i))
            }
        } else {
            (tokens_acc(s.take(i)).0, tokens_acc(s.take(i)).1.push(s[i]))
        }),
{
    assert(s.take(i + 1).drop_last() =~= s.take(i));
}

/// `str::split_whitespace`, every token owned.
pub fn tokens(s: &str) -> (r: Vec<String>)
    ensures
        r@.map_values(|t: String| t@) == tokens_spec(s@),
{
    let x = to_chars(s);
    let mut done: Vec<String> = Vec::new();
    let mut cur: Vec<char> = Vec::new();
    let mut i: usize = 0;
    while i < x.len()
        invariant
            i <= x.len(),
            x@ == s@,
            done@.map_values(|t: String| t@) == tokens_acc(x@.take(i as int)).0,
            cur@ == tokens_acc(x@.take(i as int)).1,
        decreases x.len() - i,
    {
        proof {
            lemma_tokens_acc_step(x@, i as int);
        }
        if is_whitespace(x[i]) {
            if cur.len() > 0 {
                let piece = from_chars(&cur);
                let ghost old_done = done@;
                done.push(piece);
                assert(done@.map_values(|t: String| t@) =~= old_done.map_values(
                    |t: String| t@,
                ).push(cur@));
                cur = Vec::new();
            }
        } else {
            cur.push(x[i]);
        }
        i += 1;
    }
    assert(x@.take(x.len() as int) =~= x@);
    if cur.len() > 0 {
        let piece = from_chars(&cur);
        let ghost old_done = done@;
        done.push(piece);
        assert(done@.map_values(|t: String| t@) =~= old_done.map_values(|t: String| t@).push(
            cur@,
        ));
    }
    done
}

proof fn lemma_digits_value_step(s: Seq<char>, i: int)
    requires
        0 <= i < s.len(),
    ensures
        digits_value(s.take(i + 1)) == digits_value(s.take(i)) * 10 + digit_value(s[i]),
{
    assert(s.take(i + 1).drop_last() =~= s.take(i));
}

/// `str::parse::<u32>`.
pub fn parse_u32(s: &str) -> (r: Option<u32>)
    ensures
        r == parse_u32_spec(s@),
{
    let x = to_chars(s);
    let start: usize = if x.len() > 0 && x[0] == '+' {
        1
    } else {
        0
    };
    let ghost d = x@.subrange(start as int, x.len() as int);
    assert(d =~= (if x@.len() > 0 && x@[0] == '+' {
        x@.drop_first()
    } else {
        x@
    }));
    if start >= x.len() {
        return None;
    }
    let mut acc: u64 = 0;
    let mut i: usize = start;
    while i < x.len()
        invariant
            start <= i <= x.len(),
            x@ == s@,
            d == x@.subrange(start as int, x.len() as int),
            d == (if x@.len() > 0 && x@[0] == '+' { x@.drop_first() } else { x@ }),
            all_digits(d.take(i - start)),
            acc as nat == digits_value(d.take(i - start)),
            acc <= u32::MAX,
        decreases x.len() - i,
    {
        let c = x[i];
        if !('0' <= c && c <= '9') {
            assert(d[i - start] == c);
            assert(!is_digit(d[i - start]));
            assert(!all_digits(d));
            return None;
        }
        proof {
            lemma_digits_value_step(d, i - start);
        }
        assert(d.take(i - start + 1) =~= d.take(i - start).push(c));
        let v = (c as u32 - '0' as u32) as u64;
        let next = acc * 10 + v;
        if next > u32::MAX as u64 {
            assert(all_digits(d.take(i - start + 1)));
            assert(digits_value(d.take(i - start + 1)) > u32::MAX);
            proof {
                lemma_digits_value_monotone(d, (i - start + 1) as int);
            }
            return None;
        }
        acc = next;
        i += 1;
    }
    assert(d.take(x.len() - start) =~= d);
    Some(acc as u32)
}

proof fn lemma_digits_value_monotone(s: Seq<char>, k: int)
    requires
        0 <= k <= s.len(),
        all_digits(s.take(k)),
    ensures
        digits_value(s.take(k)) <= digits_value(s) || !all_digits(s),
    decreases s.len() - k,
{
    if k < s.len() && all_digits(s) {
        lemma_digits_value_monotone(s, k + 1);
        lemma_digits_value_step(s, k);
    }
    if k == s.len() {
        assert(s.take(k) =~= s);
    }
}

/// Sign and digits of an integer literal: an optional `-` or `+`, then the rest.
pub open spec fn sign_split(s: Seq<char>) -> (bool, Seq<char>) {
    if s.len() > 0 && s[0] == '-' {
        (true, s.drop_first())
    } else if s.len() > 0 && s[0] == '+' {
        (false, s.drop_first())
    } else {
        (false, s)
    }
}

/// `str::parse::<i64>`: optional sign, then at least one digit, value in range.
pub open spec fn parse_i64_spec(s: Seq<char>) -> Option<i64> {
    let (neg, d) = sign_split(s);
    if d.len() > 0 && all_digits(d) && digits_value(d) <= (if neg {
        0x8000_0000_0000_0000int
    } else {
        0x7fff_ffff_ffff_ffffint
    }) {
        Some((if neg {
            -digits_value(d)
        } else {
            digits_value(d) as int
        }) as i64)
    } else {
        None
    }
}

/// `str::parse::<i64>`.
pub fn parse_i64(s: &str) -> (r: Option<i64>)
    ensures
        r == parse_i64_spec(s@),
{
    let x = to_chars(s);
    let neg = x.len() > 0 && x[0] == '-';
    let start: usize = if x.len() > 0 && (x[0] == '-' || x[0] == '+') {
        1
    } else {
        0
    };
    let bound: u64 = if neg {
        0x8000_0000_0000_0000
    } else {
        0x7fff_ffff_ffff_ffff
    };
    let ghost d = x@.subrange(start as int, x.len() as int);
    assert(d =~= sign_split(x@).1);
    assert(neg == sign_split(x@).0);
    if start >= x.len() {
        return None;
    }
    let mut acc: u64 = 0;
    let mut i: usize = start;
    while i < x.len()
        invariant
            start <= i <= x.len(),
            x@ == s@,
            d == x@.subrange(start as int, x.len() as int),
            d == sign_split(x@).1,
            neg == sign_split(x@).0,
            bound == (if neg { 0x8000_0000_0000_0000u64 } else { 0x7fff_ffff_ffff_ffffu64 }),
            all_digits(d.take(i - start)),
            acc as nat == digits_value(d.take(i - start)),
            acc <= bound,
        decreases x.len() - i,
    {
        let c = x[i];
        if !('0' <= c && c <= '9') {
            assert(d[i - start] == c);
            assert(!is_digit(d[i - start]));
            assert(!all_digits(d));
            return None;
        }
        proof {
            lemma_digits_value_step(d, i - start);
        }
        assert(d.take(i - start + 1) =~= d.take(i - start).push(c));
        let v = (c as u32 - '0' as u32) as u64;
        if acc > (bound - v) / 10 {
            assert(acc * 10 + v > bound) by (nonlinear_arith)
                requires
                    acc > (bound - v) / 10,
                    v <= 9,
                    bound >= 9,
            ;
            assert(all_digits(d.take(i - start + 1)));
            assert(digits_value(d.take(i - start + 1)) > bound);
            proof {
                lemma_digits_value_monotone(d, (i - start + 1) as int);
            }
            return None;
        }
        assert(acc * 10 + v <= bound) by (nonlinear_arith)
            requires
                acc <= (bound - v) / 10,
                v <= 9,
                bound >= 9,
        ;
        acc = acc * 10 + v;
        i += 1;
    }
    assert(d.take(x.len() - start) =~= d);
    if neg {
        if acc == 0x8000_0000_0000_0000 {
            Some(i64::MIN)
        } else {
            Some(-(acc as i64))
        }
    } else {
        Some(acc as i64)
    }
}

/// Decimal rendering of `n` (`u32::to_string`).
pub fn u32_to_string(n: u32) -> (r: String)
    ensures
        r@ == decimal(n as nat),
    decreases n,
{
    if n < 10 {
        let c = ((n + 48) as u8) as char;
        let mut s = String::new();
        push_char(&mut s, c);
        assert(s@ =~= seq![digit_char(n as nat)]);
        s
    } else {
        let mut s = u32_to_string(n / 10);
        let c = ((n % 10 + 48) as u8) as char;
        push_char(&mut s, c);
        s
    }
}

/// `u64::to_string`.
pub fn u64_to_string(n: u64) -> (r: String)
    ensures
        r@ == decimal(n as nat),
    decreases n,
{
    if n < 10 {
        let c = ((n + 48) as u8) as char;
        let mut s = String::new();
        push_char(&mut s, c);
        assert(s@ =~= seq![digit_char(n as nat)]);
        s
    } else {
        let mut s = u64_to_string(n / 10);
        let c = ((n % 10 + 48) as u8) as char;
        push_char(&mut s, c);
        s
    }
}

/// Lexicographic `a < b` on strings.
pub fn str_lt(a: &str, b: &str) -> (r: bool)
    ensures
        r == seq_lt(a@, b@),
{
    let x = to_chars(a);
    let y = to_chars(b);
    let mut i: usize = 0;
    assert(x@.skip(0) =~= x@);
    assert(y@.skip(0) =~= y@);
    while i < x.len() && i < y.len() && x[i] == y[i]
        invariant
            i <= x.len(),
            i <= y.len(),
            x@ == a@,
            y@ == b@,
            seq_lt(x@, y@) == seq_lt(x@.skip(i as int), y@.skip(i as int)),
        decreases x.len() - i,
    {
        assert(x@.skip(i as int).drop_first() =~= x@.skip(i + 1));
        assert(y@.skip(i as int).drop_first() =~= y@.skip(i + 1));
        i += 1;
    }
    assert(x@.skip(i as int).len() == x.len() - i);
    assert(y@.skip(i as int).len() == y.len() - i);
    if i == x.len() {
        i < y.len()
    } else if i == y.len() {
        false
    } else {
        assert(x@.skip(i as int)[0] == x@[i as int]);
        assert(y@.skip(i as int)[0] == y@[i as int]);
        x[i] < y[i]
    }
}

} // verus!
