//! Character-level helpers: ASCII whitespace words and digit strings.

use vstd::prelude::*;

verus! {

/// The characters that `str::split_ascii_whitespace` separates on.
pub open spec fn is_ws(c: char) -> bool {
    c == ' ' || c == '\t' || c == '\n' || c == '\r' || c == '\x0C'
}

/// Index just past the run of non-whitespace characters that starts at `i`.
pub open spec fn word_end(s: Seq<char>, i: int) -> int
    decreases s.len() - i,
{
    if 0 <= i < s.len() && !is_ws(s[i]) {
        word_end(s, i + 1)
    } else {
        i
    }
}

pub proof fn lemma_word_end_bounds(s: Seq<char>, i: int)
    requires
        0 <= i <= s.len(),
    ensures
        i <= word_end(s, i) <= s.len(),
    decreases s.len() - i,
{
    if i < s.len() && !is_ws(s[i]) {
        lemma_word_end_bounds(s, i + 1);
    }
}

/// The (start, end) spans of the whitespace-separated words of `s` that
/// begin at index `i` or later.
pub open spec fn spans_from(s: Seq<char>, i: int) -> Seq<(int, int)>
    decreases s.len() - i via spans_from_decreases
{
    if i < 0 || i >= s.len() {
        seq![]
    } else if is_ws(s[i]) {
        spans_from(s, i + 1)
    } else {
        seq![(i, word_end(s, i))] + spans_from(s, word_end(s, i))
    }
}

#[via_fn]
proof fn spans_from_decreases(s: Seq<char>, i: int) {
    if 0 <= i < s.len() && !is_ws(s[i]) {
        lemma_word_end_bounds(s, i + 1);
    }
}

/// The spans of all whitespace-separated words of `s`, in order.
pub open spec fn spans(s: Seq<char>) -> Seq<(int, int)> {
    spans_from(s, 0)
}

/// The whitespace-separated words of `s`, in order.
pub open spec fn words(s: Seq<char>) -> Seq<Seq<char>> {
    spans(s).map_values(|p: (int, int)| s.subrange(p.0, p.1))
}

pub open spec fn spans_as_int(v: Seq<(usize, usize)>) -> Seq<(int, int)> {
    v.map_values(|p: (usize, usize)| (p.0 as int, p.1 as int))
}

/// Spans that lie inside a sequence of length `n`, each non-empty, in
/// increasing order and not overlapping.
pub open spec fn spans_ordered(v: Seq<(int, int)>, n: int) -> bool {
    &&& forall|k: int| 0 <= k < v.len() ==> 0 <= #[trigger] v[k].0 < v[k].1 <= n
    &&& forall|k1: int, k2: int| 0 <= k1 < k2 < v.len() ==> #[trigger] v[k1].1 <= #[trigger] v[k2].0
}

pub fn is_ws_char(c: char) -> (r: bool)
    ensures
        r == is_ws(c),
{
    c == ' ' || c == '\t' || c == '\n' || c == '\r' || c == '\x0C'
}

/// The characters of `s`, one by one.
pub fn chars_of(s: &str) -> (r: Vec<char>)
    ensures
        r@ == s@,
{
    let n = s.unicode_len();
    let mut v: Vec<char> = Vec::new();
    let mut i: usize = 0;
    while i < n
        invariant
            n == s@.len(),
            i <= n,
            v@ == s@.take(i as int),
        decreases n - i,
    {
        v.push(s.get_char(i));
        i += 1;
        assert(v@ =~= s@.take(i as int));
    }
    assert(v@ =~= s@);
    v
}

/// The spans of the whitespace-separated words of `s`.
pub fn word_spans(s: &Vec<char>) -> (r: Vec<(usize, usize)>)
    ensures
        spans_as_int(r@) == spans(s@),
        spans_ordered(spans(s@), s@.len() as int),
{
    word_spans_from(s, 0)
}

/// The spans of the whitespace-separated words of `s` from index `from` on.
pub fn word_spans_from(s: &Vec<char>, from: usize) -> (r: Vec<(usize, usize)>)
    requires
        from <= s@.len(),
    ensures
        spans_as_int(r@) == spans_from(s@, from as int),
        spans_ordered(spans_from(s@, from as int), s@.len() as int),
{
    let mut out: Vec<(usize, usize)> = Vec::new();
    let mut i: usize = from;
    assert(spans_as_int(out@) + spans_from(s@, i as int) =~= spans_from(s@, from as int));
    while i < s.len()
        invariant
            i <= s@.len(),
            spans_from(s@, from as int) == spans_as_int(out@) + spans_from(s@, i as int),
            spans_ordered(spans_as_int(out@), i as int),
        decreases s@.len() - i,
    {
        if is_ws_char(s[i]) {
            i += 1;
        } else {
            let start = i;
            let mut j: usize = i + 1;
            while j < s.len() && !is_ws_char(s[j])
                invariant
                    start < j <= s@.len(),
                    word_end(s@, start as int) == word_end(s@, j as int),
                decreases s@.len() - j,
            {
                j += 1;
            }
            let ghost before = spans_as_int(out@);
            out.push((start, j));
            assert(spans_as_int(out@) =~= before + seq![(start as int, j as int)]);
            assert(spans_from(s@, start as int) == seq![(start as int, j as int)] + spans_from(
                s@,
                j as int,
            ));
            assert(spans_from(s@, from as int) =~= spans_as_int(out@) + spans_from(s@, j as int));
            i = j;
        }
    }
    assert(spans_as_int(out@) =~= spans_from(s@, from as int));
    out
}

/// A digit in base `radix`, which is 10 or 16 (either case of letter).
pub open spec fn is_digit(c: char, radix: int) -> bool {
    if radix == 16 {
        ('0' <= c && c <= '9') || ('a' <= c && c <= 'f') || ('A' <= c && c <= 'F')
    } else {
        '0' <= c && c <= '9'
    }
}

pub open spec fn digit_val(c: char) -> int {
    if '0' <= c && c <= '9' {
        c as int - '0' as int
    } else if 'a' <= c && c <= 'f' {
        c as int - 'a' as int + 10
    } else {
        c as int - 'A' as int + 10
    }
}

/// The number that the digit string `s` writes in base `radix`.
pub open spec fn digits_value(s: Seq<char>, radix: int) -> int
    decreases s.len(),
{
    if s.len() == 0 {
        0
    } else {
        digits_value(s.drop_last(), radix) * radix + digit_val(s.last())
    }
}

/// A non-empty string of digits of base `radix`: no sign, no prefix.
pub open spec fn all_digits(s: Seq<char>, radix: int) -> bool {
    s.len() > 0 && forall|i: int| 0 <= i < s.len() ==> is_digit(#[trigger] s[i], radix)
}

pub proof fn lemma_digits_nonneg(s: Seq<char>, radix: int)
    requires
        radix == 10 || radix == 16,
        forall|i: int| 0 <= i < s.len() ==> is_digit(#[trigger] s[i], radix),
    ensures
        digits_value(s, radix) >= 0,
    decreases s.len(),
{
    if s.len() > 0 {
        assert(is_digit(s[s.len() - 1], radix));
        lemma_digits_nonneg(s.drop_last(), radix);
        let v = digits_value(s.drop_last(), radix);
        assert(v * radix >= 0) by (nonlinear_arith)
            requires
                v >= 0,
                radix >= 0,
        ;
    }
}

/// Appending digits never makes the number smaller.
pub proof fn lemma_digits_prefix(s: Seq<char>, k: int, radix: int)
    requires
        radix == 10 || radix == 16,
        0 <= k <= s.len(),
        forall|i: int| 0 <= i < s.len() ==> is_digit(#[trigger] s[i], radix),
    ensures
        digits_value(s.take(k), radix) <= digits_value(s, radix),
    decreases s.len(),
{
    if k == s.len() {
        assert(s.take(k) =~= s);
    } else {
        let t = s.drop_last();
        assert(is_digit(s[s.len() - 1], radix));
        lemma_digits_prefix(t, k, radix);
        lemma_digits_nonneg(t, radix);
        assert(t.take(k) =~= s.take(k));
        let v = digits_value(t, radix);
        assert(v * radix >= v) by (nonlinear_arith)
            requires
                v >= 0,
                radix >= 1,
        ;
    }
}

pub fn is_digit_char(c: char, radix: u32) -> (r: bool)
    requires
        radix == 10 || radix == 16,
    ensures
        r == is_digit(c, radix as int),
{
    if radix == 16 {
        ('0' <= c && c <= '9') || ('a' <= c && c <= 'f') || ('A' <= c && c <= 'F')
    } else {
        '0' <= c && c <= '9'
    }
}

fn digit_value(c: char) -> (r: u64)
    requires
        is_digit(c, 16),
    ensures
        r == digit_val(c),
        r < 16,
{
    if '0' <= c && c <= '9' {
        (c as u32 - '0' as u32) as u64
    } else if 'a' <= c && c <= 'f' {
        (c as u32 - 'a' as u32 + 10) as u64
    } else {
        (c as u32 - 'A' as u32 + 10) as u64
    }
}

/// Reads `s[a..b]` as a number in base `radix`, accepting it only where it
/// is all digits and at most `limit`.
pub fn parse_digits(s: &Vec<char>, a: usize, b: usize, radix: u32, limit: u64) -> (r: Option<u64>)
    requires
        a <= b <= s@.len(),
        radix == 10 || radix == 16,
    ensures
        r is Some <==> all_digits(s@.subrange(a as int, b as int), radix as int) && digits_value(
            s@.subrange(a as int, b as int),
            radix as int,
        ) <= limit,
        r matches Some(v) ==> v == digits_value(s@.subrange(a as int, b as int), radix as int),
{
    let ghost whole = s@.subrange(a as int, b as int);
    if a == b {
        return None;
    }
    let mut acc: u64 = 0;
    let mut i: usize = a;
    while i < b
        invariant
            a <= i <= b <= s@.len(),
            radix == 10 || radix == 16,
            whole == s@.subrange(a as int, b as int),
            forall|j: int| a <= j < i ==> is_digit(#[trigger] s@[j], radix as int),
            acc == digits_value(s@.subrange(a as int, i as int), radix as int),
            acc <= limit,
        decreases b - i,
    {
        let c = s[i];
        assert(s@.subrange(a as int, i as int + 1).drop_last() =~= s@.subrange(a as int, i as int));
        if !is_digit_char(c, radix) {
            assert(!is_digit(whole[i - a], radix as int));
            return None;
        }
        let d = digit_value(c);
        assert(d < radix) by {
            if radix == 10 {
            }
        }
        let r = radix as u64;
        if d > limit || acc > (limit - d) / r {
            proof {
                let t = s@.subrange(a as int, i as int + 1);
                assert(digits_value(t, radix as int) > limit) by (nonlinear_arith)
                    requires
                        digits_value(t, radix as int) == acc * r + d,
                        d > limit || acc > (limit - d) as int / (r as int),
                        r >= 1,
                        acc >= 0,
                ;
                if all_digits(whole, radix as int) {
                    lemma_digits_prefix(whole, i - a + 1, radix as int);
                    assert(whole.take(i - a + 1) =~= t);
                }
            }
            return None;
        }
        assert(acc * r + d <= limit) by (nonlinear_arith)
            requires
                acc <= (limit - d) as int / (r as int),
                d <= limit,
                r >= 1,
        ;
        acc = acc * r + d;
        i += 1;
    }
    assert(s@.subrange(a as int, i as int) =~= whole);
    Some(acc)
}

/// Index of the first `c` in `t` at `i` or later, or -1 where there is none.
pub open spec fn first_from(t: Seq<char>, c: char, i: int) -> int
    decreases t.len() - i,
{
    if 0 <= i < t.len() {
        if t[i] == c {
            i
        } else {
            first_from(t, c, i + 1)
        }
    } else {
        -1
    }
}

/// `t` split around its first `c`, as `str::split_once` does.
pub open spec fn split_once(t: Seq<char>, c: char) -> Option<(Seq<char>, Seq<char>)> {
    let k = first_from(t, c, 0);
    if k < 0 {
        None
    } else {
        Some((t.take(k), t.skip(k + 1)))
    }
}

/// The first `c` in `s[a..b]`, as an index of `s`.
pub fn find_char(s: &Vec<char>, a: usize, b: usize, c: char) -> (r: Option<usize>)
    requires
        a <= b <= s@.len(),
    ensures
        r is None <==> first_from(s@.subrange(a as int, b as int), c, 0) == -1,
        r matches Some(k) ==> k - a == first_from(s@.subrange(a as int, b as int), c, 0) && a
            <= k < b,
{
    let ghost t = s@.subrange(a as int, b as int);
    let mut i: usize = a;
    while i < b
        invariant
            a <= i <= b <= s@.len(),
            t == s@.subrange(a as int, b as int),
            first_from(t, c, 0) == first_from(t, c, i - a),
        decreases b - i,
    {
        if s[i] == c {
            return Some(i);
        }
        i += 1;
    }
    None
}

/// Whether `s[a..b]` is the text `lit`.
pub fn span_is(s: &Vec<char>, a: usize, b: usize, lit: &str) -> (r: bool)
    requires
        a <= b <= s@.len(),
    ensures
        r == (s@.subrange(a as int, b as int) == lit@),
{
    let n = lit.unicode_len();
    if b - a != n {
        return false;
    }
    let mut i: usize = 0;
    while i < n
        invariant
            n == lit@.len(),
            b - a == n,
            a <= b <= s@.len(),
            i <= n,
            forall|j: int| 0 <= j < i ==> s@[a + j] == lit@[j],
        decreases n - i,
    {
        if s[a + i] != lit.get_char(i) {
            assert(s@.subrange(a as int, b as int)[i as int] != lit@[i as int]);
            return false;
        }
        i += 1;
    }
    assert(s@.subrange(a as int, b as int) =~= lit@);
    true
}

/// Whether `s` holds the character `c`.
pub fn contains_char(s: &str, c: char) -> (r: bool)
    ensures
        r == s@.contains(c),
{
    let n = s.unicode_len();
    let mut i: usize = 0;
    while i < n
        invariant
            n == s@.len(),
            i <= n,
            forall|j: int| 0 <= j < i ==> s@[j] != c,
        decreases n - i,
    {
        if s.get_char(i) == c {
            return true;
        }
        i += 1;
    }
    false
}

} // verus!
