//! Character-level text handling shared by the parsers and renderers: whitespace, trimming,
//! line splitting, searching, and decimal numbers.

use vstd::prelude::*;

verus! {

/// The characters that `char::is_whitespace` accepts (Unicode `White_Space`).
pub open spec fn is_ws(c: char) -> bool {
    ||| c == '\t'
    ||| c == '\n'
    ||| c == '\x0B'
    ||| c == '\x0C'
    ||| c == '\r'
    ||| c == ' '
    ||| c == '\u{85}'
    ||| c == '\u{A0}'
    ||| c == '\u{1680}'
    ||| ('\u{2000}' <= c && c <= '\u{200A}')
    ||| c == '\u{2028}'
    ||| c == '\u{2029}'
    ||| c == '\u{202F}'
    ||| c == '\u{205F}'
    ||| c == '\u{3000}'
}

pub fn is_whitespace(c: char) -> (r: bool)
    ensures
        r == is_ws(c),
{
    c == '\t' || c == '\n' || c == '\x0B' || c == '\x0C' || c == '\r' || c == ' ' || c == '\u{85}'
        || c == '\u{A0}' || c == '\u{1680}' || ('\u{2000}' <= c && c <= '\u{200A}') || c == '\u{2028}'
        || c == '\u{2029}' || c == '\u{202F}' || c == '\u{205F}' || c == '\u{3000}'
}

/// `s` without its leading whitespace.
pub open spec fn trim_start(s: Seq<char>) -> Seq<char>
    decreases s.len(),
{
    if s.len() > 0 && is_ws(s[0]) {
        trim_start(s.drop_first())
    } else {
        s
    }
}

/// `s` without its trailing whitespace.
pub open spec fn trim_end(s: Seq<char>) -> Seq<char>
    decreases s.len(),
{
    if s.len() > 0 && is_ws(s.last()) {
        trim_end(s.drop_last())
    } else {
        s
    }
}

/// `s` without leading and trailing whitespace, as `str::trim` gives it.
pub open spec fn trim(s: Seq<char>) -> Seq<char> {
    trim_end(trim_start(s))
}

/// The pieces of `s` between `'\n'` characters; `k` newlines give `k + 1` pieces.
pub open spec fn split_nl(s: Seq<char>) -> Seq<Seq<char>>
    decreases s.len(),
{
    if s.len() == 0 {
        seq![Seq::<char>::empty()]
    } else {
        let p = split_nl(s.drop_last());
        if s.last() == '\n' {
            p.push(Seq::<char>::empty())
        } else {
            p.update(p.len() - 1, p.last().push(s.last()))
        }
    }
}

pub proof fn lemma_split_nl_len(s: Seq<char>)
    ensures
        split_nl(s).len() >= 1,
    decreases s.len(),
{
    if s.len() > 0 {
        lemma_split_nl_len(s.drop_last());
    }
}

/// A line that ended in `'\n'`, without a final `'\r'`.
pub open spec fn strip_cr(l: Seq<char>) -> Seq<char> {
    if l.len() > 0 && l.last() == '\r' {
        l.drop_last()
    } else {
        l
    }
}

/// The lines of `s`, as `str::lines` gives them: every piece that a `'\n'` ends loses a final
/// `'\r'`; the piece after the last `'\n'` is a line only when it is not empty.
pub open spec fn lines(s: Seq<char>) -> Seq<Seq<char>> {
    let p = split_nl(s);
    let body = p.take(p.len() - 1).map_values(|l: Seq<char>| strip_cr(l));
    if p.last().len() == 0 {
        body
    } else {
        body.push(p.last())
    }
}

/// The index of the last `c` in `s`, or `-1`.
pub open spec fn last_index_of(s: Seq<char>, c: char) -> int
    decreases s.len(),
{
    if s.len() == 0 {
        -1
    } else if s.last() == c {
        s.len() - 1
    } else {
        last_index_of(s.drop_last(), c)
    }
}

/// The ASCII digit of value `d`.
pub open spec fn digit_char(d: int) -> char {
    if d == 0 { '0' } else if d == 1 { '1' } else if d == 2 { '2' } else if d == 3 { '3' }
    else if d == 4 { '4' } else if d == 5 { '5' } else if d == 6 { '6' } else if d == 7 { '7' }
    else if d == 8 { '8' } else { '9' }
}

/// `c` is an ASCII decimal digit.
pub open spec fn is_digit(c: char) -> bool {
    '0' <= c && c <= '9'
}

/// The value of the ASCII digit `c`.
pub open spec fn digit_value(c: char) -> int {
    c as int - 48
}

/// The decimal form of `n`, without leading zeros, as `Display` writes an unsigned integer.
pub open spec fn dec(n: nat) -> Seq<char>
    decreases n,
{
    if n < 10 {
        seq![digit_char(n as int)]
    } else {
        dec(n / 10).push(digit_char((n % 10) as int))
    }
}

/// Every character of `s` is an ASCII digit.
pub open spec fn all_digits(s: Seq<char>) -> bool {
    forall|i: int| 0 <= i < s.len() ==> is_digit(#[trigger] s[i])
}

/// The number that the digits `s` spell.
pub open spec fn digits_value(s: Seq<char>) -> nat
    decreases s.len(),
{
    if s.len() == 0 {
        0
    } else {
        (digits_value(s.drop_last()) * 10 + digit_value(s.last())) as nat
    }
}

/// What `str::parse::<u64>` gives: an optional `'+'`, then at least one ASCII digit, with a value
/// that fits in 64 bits.
pub open spec fn parse_u64(s: Seq<char>) -> Option<u64> {
    let body = if s.len() > 0 && s[0] == '+' { s.drop_first() } else { s };
    if body.len() > 0 && all_digits(body) && digits_value(body) <= u64::MAX {
        Some(digits_value(body) as u64)
    } else {
        None
    }
}

proof fn lemma_digits_value_prefix(s: Seq<char>, k: int)
    requires
        0 <= k <= s.len(),
        all_digits(s),
    ensures
        digits_value(s.take(k)) <= digits_value(s),
    decreases s.len(),
{
    if k < s.len() {
        let sp = s.drop_last();
        assert(all_digits(sp)) by {
            assert forall|i: int| 0 <= i < sp.len() implies is_digit(#[trigger] sp[i]) by { assert(sp[i] == s[i]); }
        }
        assert(s.take(k) =~= sp.take(k));
        lemma_digits_value_prefix(sp, k);
        assert(is_digit(s[s.len() - 1]));
    } else {
        assert(s.take(k) =~= s);
    }
}

/// The digits of `n` spell `n`.
pub proof fn lemma_dec_props(n: nat)
    ensures
        dec(n).len() > 0,
        all_digits(dec(n)),
        digits_value(dec(n)) == n,
        dec(n)[0] != '+',
        dec(n).last() != '\r',
        forall|i: int| 0 <= i < dec(n).len() ==> !is_ws(#[trigger] dec(n)[i]) && dec(n)[i] != ':' && dec(n)[i] != '\n',
    decreases n,
{
    if n >= 10 {
        lemma_dec_props(n / 10);
        let p = dec(n / 10);
        let d = digit_char((n % 10) as int);
        assert(dec(n) == p.push(d));
        assert(dec(n).drop_last() =~= p);
        assert(digit_value(d) == n % 10);
        assert(n == (n / 10) * 10 + n % 10);
        assert forall|i: int| 0 <= i < dec(n).len() implies is_digit(#[trigger] dec(n)[i]) by {
            if i < p.len() { assert(dec(n)[i] == p[i]); }
        }
        assert forall|i: int| 0 <= i < dec(n).len() implies !is_ws(#[trigger] dec(n)[i]) && dec(n)[i] != ':' && dec(n)[i] != '\n' by {
            if i < p.len() { assert(dec(n)[i] == p[i]); }
        }
        assert(dec(n)[0] == p[0]);
        assert(digits_value(dec(n)) == digits_value(p) * 10 + digit_value(d));
    } else {
        assert(dec(n).drop_last() =~= Seq::<char>::empty());
        assert(digit_value(digit_char(n as int)) == n);
        assert(digits_value(dec(n)) == digits_value(Seq::<char>::empty()) * 10 + digit_value(digit_char(n as int)));
    }
}

/// A string's characters, one by one.
pub fn chars_of(s: &str) -> (r: Vec<char>)
    ensures
        r@ == s@,
{
    let mut r: Vec<char> = Vec::new();
    for c in it: s.chars()
        invariant
            it.seq() == s@,
            r@ == s@.take(it.index() as int),
    {
        proof { assert(s@.take(it.index() + 1) =~= s@.take(it.index() as int).push(c)); }
        r.push(c);
    }
    proof { assert(s@.take(s@.len() as int) =~= s@); }
    r
}

/// Builds a string from its characters (`String: FromIterator<&char>`).
#[verifier::external_body]
pub(crate) fn string_from_chars(v: &[char]) -> (r: String)
    ensures
        r@ == v@,
{
    v.iter().collect()
}

/// The decimal form of `n`.
pub fn u64_to_dec(n: u64) -> (r: Vec<char>)
    ensures
        r@ == dec(n as nat),
    decreases n,
{
    let d = n % 10;
    let c = if d == 0 { '0' } else if d == 1 { '1' } else if d == 2 { '2' } else if d == 3 { '3' }
        else if d == 4 { '4' } else if d == 5 { '5' } else if d == 6 { '6' } else if d == 7 { '7' }
        else if d == 8 { '8' } else { '9' };
    if n < 10 {
        let mut r: Vec<char> = Vec::new();
        r.push(c);
        proof { assert(r@ =~= dec(n as nat)); }
        r
    } else {
        let mut r = u64_to_dec(n / 10);
        r.push(c);
        r
    }
}

/// Appends the characters of `s` to `out`.
pub fn push_all(out: &mut Vec<char>, s: &[char])
    ensures
        final(out)@ == old(out)@ + s@,
{
    let ghost start = out@;
    for i in 0..s.len()
        invariant
            out@ == start + s@.take(i as int),
    {
        out.push(s[i]);
        proof { assert(s@.take(i + 1) =~= s@.take(i as int).push(s@[i as int])); }
    }
    proof { assert(s@.take(s@.len() as int) =~= s@); }
}

/// Appends the characters of `s` to `out`.
pub fn push_str(out: &mut Vec<char>, s: &str)
    ensures
        final(out)@ == old(out)@ + s@,
{
    let v = chars_of(s);
    push_all(out, v.as_slice());
}

/// Parses a `u64` as `str::parse::<u64>` does.
pub fn parse_u64_chars(s: &[char]) -> (r: Option<u64>)
    ensures
        r == parse_u64(s@),
{
    let mut i: usize = 0;
    if s.len() > 0 && s[0] == '+' {
        i = 1;
    }
    let ghost body = if s@.len() > 0 && s@[0] == '+' { s@.drop_first() } else { s@ };
    let start = i;
    proof { assert(body =~= s@.skip(start as int)); }
    if i == s.len() {
        return None;
    }
    let mut acc: u64 = 0;
    while i < s.len()
        invariant
            start <= i <= s.len(),
            body == s@.skip(start as int),
            body == (if s@.len() > 0 && s@[0] == '+' { s@.drop_first() } else { s@ }),
            all_digits(body.take(i - start)),
            acc == digits_value(body.take(i - start)),
        decreases s.len() - i,
    {
        let c = s[i];
        proof {
            assert(body[i - start] == c);
            assert(body.take(i - start + 1).drop_last() =~= body.take(i - start));
            assert(body.take(i - start + 1).last() == c);
        }
        if !('0' <= c && c <= '9') {
            proof { assert(!all_digits(body)) by { assert(!is_digit(body[i - start])); } }
            return None;
        }
        let d = (c as u32 - 48) as u64;
        assert(all_digits(body.take(i - start + 1))) by {
            let t = body.take(i - start + 1);
            assert forall|j: int| 0 <= j < t.len() implies is_digit(#[trigger] t[j]) by {
                if j < i - start { assert(t[j] == body.take(i - start)[j]); }
            }
        }
        if acc > (u64::MAX - d) / 10 {
            proof {
                assert(digits_value(body.take(i - start + 1)) > u64::MAX) by (nonlinear_arith)
                    requires
                        digits_value(body.take(i - start + 1)) == acc * 10 + d,
                        acc > (u64::MAX - d) / 10,
                        d <= 9,
                ;
                if all_digits(body) {
                    lemma_digits_value_prefix(body, i - start + 1);
                }
            }
            return None;
        }
        proof {
            assert(acc * 10 + d <= u64::MAX) by (nonlinear_arith)
                requires acc <= (u64::MAX - d) / 10, d <= 9;
        }
        acc = acc * 10 + d;
        i = i + 1;
    }
    proof { assert(body.take(i - start) =~= body); }
    Some(acc)
}

/// The index of the last `c` in `s[..end]`, if any.
pub fn last_index(s: &[char], end: usize, c: char) -> (r: Option<usize>)
    requires
        end <= s.len(),
    ensures
        match r {
            Some(i) => i == last_index_of(s@.take(end as int), c) && i < end && s@[i as int] == c,
            None => last_index_of(s@.take(end as int), c) == -1,
        },
{
    let mut j = end;
    while j > 0
        invariant
            j <= end <= s.len(),
            last_index_of(s@.take(end as int), c) == last_index_of(s@.take(j as int), c),
        decreases j,
    {
        proof {
            assert(s@.take(j as int).drop_last() =~= s@.take(j - 1));
            assert(s@.take(j as int).last() == s@[j - 1]);
        }
        if s[j - 1] == c {
            return Some(j - 1);
        }
        j = j - 1;
    }
    None
}

/// The bounds `(a, b)` of `trim(s[lo..hi])` inside `s`.
pub fn trim_bounds(s: &[char], lo: usize, hi: usize) -> (r: (usize, usize))
    requires
        lo <= hi <= s.len(),
    ensures
        lo <= r.0 <= r.1 <= hi,
        s@.subrange(r.0 as int, r.1 as int) == trim(s@.subrange(lo as int, hi as int)),
{
    let mut a = lo;
    while a < hi && is_whitespace(s[a])
        invariant
            lo <= a <= hi <= s.len(),
            trim_start(s@.subrange(lo as int, hi as int)) == trim_start(s@.subrange(a as int, hi as int)),
        decreases hi - a,
    {
        proof {
            assert(s@.subrange(a as int, hi as int).drop_first() =~= s@.subrange(a + 1, hi as int));
        }
        a = a + 1;
    }
    let mut b = hi;
    while b > a && is_whitespace(s[b - 1])
        invariant
            lo <= a <= b <= hi <= s.len(),
            trim_end(s@.subrange(a as int, hi as int)) == trim_end(s@.subrange(a as int, b as int)),
        decreases b - a,
    {
        proof {
            assert(s@.subrange(a as int, b as int).drop_last() =~= s@.subrange(a as int, b - 1));
        }
        b = b - 1;
    }
    (a, b)
}

/// The lines of `s`, as `str::lines` gives them.
pub fn lines_of(s: &[char]) -> (r: Vec<Vec<char>>)
    ensures
        r@.len() == lines(s@).len(),
        forall|i: int| 0 <= i < r@.len() ==> #[trigger] r@[i]@ == lines(s@)[i],
{
    let mut out: Vec<Vec<char>> = Vec::new();
    let mut cur: Vec<char> = Vec::new();
    proof { assert(s@.take(0) =~= Seq::<char>::empty()); }
    for i in 0..s.len()
        invariant
            out@.len() == split_nl(s@.take(i as int)).len() - 1,
            forall|k: int| 0 <= k < out@.len() ==> #[trigger] out@[k]@ == strip_cr(split_nl(s@.take(i as int))[k]),
            cur@ == split_nl(s@.take(i as int)).last(),
    {
        let ghost p = split_nl(s@.take(i as int));
        proof {
            lemma_split_nl_len(s@.take(i as int));
            lemma_split_nl_len(s@.take(i + 1));
            assert(s@.take(i + 1).drop_last() =~= s@.take(i as int));
            assert(s@.take(i + 1).last() == s@[i as int]);
        }
        if s[i] == '\n' {
            let n = cur.len();
            if n > 0 && cur[n - 1] == '\r' {
                cur.pop();
            }
            proof { assert(cur@ == strip_cr(p.last())); }
            out.push(cur);
            cur = Vec::new();
            proof {
                let q = split_nl(s@.take(i + 1));
                assert(q == p.push(Seq::<char>::empty()));
                assert forall|k: int| 0 <= k < out@.len() implies #[trigger] out@[k]@ == strip_cr(q[k]) by {
                    if k < out@.len() - 1 { assert(q[k] == p[k]); } else { assert(q[k] == p[p.len() - 1]); }
                }
                assert(cur@ =~= q.last());
            }
        } else {
            cur.push(s[i]);
            proof {
                let q = split_nl(s@.take(i + 1));
                assert(q == p.update(p.len() - 1, p.last().push(s@[i as int])));
                assert forall|k: int| 0 <= k < out@.len() implies #[trigger] out@[k]@ == strip_cr(q[k]) by {
                    assert(q[k] == p[k]);
                }
            }
        }
    }
    proof {
        assert(s@.take(s@.len() as int) =~= s@);
        lemma_split_nl_len(s@);
        let p = split_nl(s@);
        let body = p.take(p.len() - 1).map_values(|l: Seq<char>| strip_cr(l));
        assert(out@.len() == body.len());
        assert forall|k: int| 0 <= k < out@.len() implies #[trigger] out@[k]@ == body[k] by {}
    }
    if cur.len() > 0 {
        out.push(cur);
    }
    out
}

/// Whether two character sequences are equal.
pub fn chars_eq(a: &[char], b: &[char]) -> (r: bool)
    ensures
        r == (a@ == b@),
{
    if a.len() != b.len() {
        return false;
    }
    for i in 0..a.len()
        invariant
            a.len() == b.len(),
            forall|k: int| 0 <= k < i ==> a@[k] == b@[k],
    {
        if a[i] != b[i] {
            return false;
        }
    }
    proof { assert(a@ =~= b@); }
    true
}

/// Whether two strings are equal.
pub fn str_eq(a: &str, b: &str) -> (r: bool)
    ensures
        r == (a@ == b@),
{
    let x = chars_of(a);
    let y = chars_of(b);
    chars_eq(x.as_slice(), y.as_slice())
}

/// Whether `needle` occurs in `hay`.
pub open spec fn contains_seq(hay: Seq<char>, needle: Seq<char>) -> bool {
    exists|i: int| 0 <= i <= hay.len() - needle.len() && #[trigger] hay.subrange(i, i + needle.len()) == needle
}

/// `s` begins with `p`.
pub open spec fn starts_with(s: Seq<char>, p: Seq<char>) -> bool {
    p.len() <= s.len() && s.take(p.len() as int) == p
}

/// `s` ends with `p`.
pub open spec fn ends_with(s: Seq<char>, p: Seq<char>) -> bool {
    p.len() <= s.len() && s.skip(s.len() - p.len()) == p
}

fn matches_at(hay: &[char], needle: &[char], i: usize) -> (r: bool)
    requires
        i + needle.len() <= hay.len(),
    ensures
        r == (hay@.subrange(i as int, i + needle.len()) == needle@),
{
    for k in 0..needle.len()
        invariant
            i + needle.len() <= hay.len(),
            forall|m: int| 0 <= m < k ==> hay@[i + m] == needle@[m],
    {
        if hay[i + k] != needle[k] {
            proof { assert(hay@.subrange(i as int, i + needle.len())[k as int] != needle@[k as int]); }
            return false;
        }
    }
    proof { assert(hay@.subrange(i as int, i + needle.len()) =~= needle@); }
    true
}

/// Whether `needle` occurs in `hay`, as `str::contains` decides it.
pub fn chars_contain(hay: &[char], needle: &[char]) -> (r: bool)
    ensures
        r == contains_seq(hay@, needle@),
{
    if needle.len() > hay.len() {
        return false;
    }
    let last = hay.len() - needle.len();
    for i in 0..last
        invariant
            last == hay.len() - needle.len(),
            needle.len() <= hay.len(),
            forall|j: int| 0 <= j < i ==> #[trigger] hay@.subrange(j, j + needle.len()) != needle@,
    {
        if matches_at(hay, needle, i) {
            return true;
        }
    }
    matches_at(hay, needle, last)
}

/// Whether `s` begins with `p`.
pub fn chars_start_with(s: &[char], p: &[char]) -> (r: bool)
    ensures
        r == starts_with(s@, p@),
{
    if p.len() > s.len() {
        return false;
    }
    let r = matches_at(s, p, 0);
    proof { assert(s@.subrange(0, p.len() as int) =~= s@.take(p.len() as int)); }
    r
}

/// Whether `s` ends with `p`.
pub fn chars_end_with(s: &[char], p: &[char]) -> (r: bool)
    ensures
        r == ends_with(s@, p@),
{
    if p.len() > s.len() {
        return false;
    }
    let start = s.len() - p.len();
    let r = matches_at(s, p, start);
    proof { assert(s@.subrange(start as int, s.len() as int) =~= s@.skip(start as int)); }
    r
}

} // verus!
