//! Properties that relate the decoders and the two reading modes.

use vstd::prelude::*;
use vstd::arithmetic::power2::{lemma2_to64, lemma2_to64_rest};

use crate::header::{header_of, number, permissions_of};
use crate::parse::{
    block_end, block_step, collect, header_step, lemma_block_end_bounds, usage_block,
    BlockOutcome,
};
use crate::text::{
    all_digits, digit_val, digits_value, first_from, is_digit, is_ws, lemma_word_end_bounds, spans,
    spans_from, split_once, word_end, words,
};
use crate::types::{Device, Fault, MappingView, Usage, zero_usage};
use crate::usage::{sized_line, SizedLine};

verus! {

/// A sized value is its number times 1024 (2^10) for `kB`, 2^20 for `mB`,
/// 2^30 for `gB` and 2^40 for `tB`, and the number itself without a unit;
/// it decodes exactly when that product fits in a `usize`.
pub proof fn sized_value_scales(s: Seq<char>)
    requires
        2 <= words(s).len() <= 3,
        words(s).len() == 3 ==> (words(s)[2] == "kB"@ || words(s)[2] == "mB"@ || words(s)[2]
            == "gB"@ || words(s)[2] == "tB"@),
    ensures
        ({
            let w = words(s);
            let n = digits_value(w[1], 10);
            let factor: int = if w.len() == 2 {
                1
            } else if w[2] == "kB"@ {
                1024
            } else if w[2] == "mB"@ {
                1048576
            } else if w[2] == "gB"@ {
                1073741824
            } else {
                1099511627776
            };
            &&& sized_line(s) is Entry <==> all_digits(w[1], 10) && n * factor <= usize::MAX
            &&& sized_line(s) matches SizedLine::Entry(_, v) ==> v == n * factor
        }),
{
    lemma2_to64();
    lemma2_to64_rest();
    reveal_strlit("kB");
    reveal_strlit("mB");
    reveal_strlit("gB");
    reveal_strlit("tB");
    let w = words(s);
    let n = digits_value(w[1], 10);
    if all_digits(w[1], 10) {
        crate::text::lemma_digits_nonneg(w[1], 10);
    }
    if w.len() == 3 {
        if w[2] == "kB"@ {
            assert(crate::usage::unit_shift(w[2]) == Some(10nat));
            assert(n * vstd::arithmetic::power2::pow2(10) == n * 1024);
        } else if w[2] == "mB"@ {
            assert(crate::usage::unit_shift(w[2]) == Some(20nat));
            assert(n * vstd::arithmetic::power2::pow2(20) == n * 1048576);
        } else if w[2] == "gB"@ {
            assert(crate::usage::unit_shift(w[2]) == Some(30nat));
            assert(n * vstd::arithmetic::power2::pow2(30) == n * 1073741824);
        } else {
            assert(crate::usage::unit_shift(w[2]) == Some(40nat));
            assert(n * vstd::arithmetic::power2::pow2(40) == n * 1099511627776);
        }
    } else {
        assert(n * vstd::arithmetic::power2::pow2(0) == n);
    }
}

/// A header followed at once by another header, or by the end of the lines,
/// has the all-zero usage with no flags.
pub proof fn empty_block_is_zero(ls: Seq<Seq<char>>, p: int)
    requires
        p == ls.len() || (0 <= p < ls.len() && ls[p].contains('-')),
    ensures
        block_step(ls, p) == Ok::<(int, Option<Usage>), Fault>((p, Some(zero_usage()))),
        zero_usage().size == 0 && zero_usage().rss == 0 && zero_usage().pss == 0,
        zero_usage().vm_flags.bits == 0 && zero_usage().protection_key is None,
        !zero_usage().thp_eligible,
{
}

/// `block_end` from `p` reads only the lines at `p` and after.
proof fn lemma_block_end_local(a: Seq<Seq<char>>, b: Seq<Seq<char>>, p: int)
    requires
        0 <= p <= a.len(),
        a.len() == b.len(),
        forall|i: int| p <= i < a.len() ==> a[i] == b[i],
    ensures
        block_end(a, p) == block_end(b, p),
    decreases a.len() - p,
{
    if p < a.len() {
        lemma_block_end_local(a, b, p + 1);
    }
}

/// Decoding a block from `p` reads only the lines at `p` and after.
proof fn lemma_usage_block_local(a: Seq<Seq<char>>, b: Seq<Seq<char>>, p: int, u: Usage)
    requires
        0 <= p <= a.len(),
        a.len() == b.len(),
        forall|i: int| p <= i < a.len() ==> a[i] == b[i],
    ensures
        usage_block(a, p, u) == usage_block(b, p, u),
    decreases a.len() - p,
{
    if p < a.len() {
        assert(a[p] == b[p]);
        if let crate::usage::LineStep::Next(u2) = crate::usage::usage_step(u, a[p]) {
            lemma_usage_block_local(a, b, p + 1, u2);
        }
    }
}

/// Bulk reading from `p` reads only the lines at `p` and after.
proof fn lemma_collect_local(
    a: Seq<Seq<char>>,
    b: Seq<Seq<char>>,
    p: int,
    keep: spec_fn(MappingView) -> bool,
)
    requires
        0 <= p <= a.len(),
        a.len() == b.len(),
        forall|i: int| p <= i < a.len() ==> a[i] == b[i],
    ensures
        collect(a, p, keep) == collect(b, p, keep),
    decreases a.len() - p,
{
    if p < a.len() {
        lemma_block_end_bounds(a, p + 1);
        lemma_block_end_local(a, b, p + 1);
        lemma_usage_block_local(a, b, p + 1, zero_usage());
        lemma_collect_local(a, b, block_end(a, p + 1), keep);
    }
}

/// When `keep` turns down the mapping at line `p`, bulk reading does not
/// decode its detail block: any other detail lines in its place (lines
/// without a `-`, so that the block keeps its extent), with unknown keys or
/// garbage, give the same result, and the same as reading on from the next
/// header.
pub proof fn filtered_block_never_fails(
    ls: Seq<Seq<char>>,
    other: Seq<Seq<char>>,
    p: int,
    keep: spec_fn(MappingView) -> bool,
)
    requires
        0 <= p < ls.len(),
        header_of(ls[p]) matches Some(m) && !keep(m),
        other.len() == ls.len(),
        forall|i: int|
            0 <= i < ls.len() && !(p < i < block_end(ls, p + 1)) ==> other[i] == ls[i],
        forall|i: int| p < i < block_end(ls, p + 1) ==> !other[i].contains('-'),
    ensures
        collect(ls, p, keep) == collect(ls, block_end(ls, p + 1), keep),
        collect(other, p, keep) == collect(ls, p, keep),
{
    let q = block_end(ls, p + 1);
    lemma_block_end_bounds(ls, p + 1);
    assert(block_end(other, p + 1) == q) by {
        lemma_block_end_same_block(ls, other, p + 1, q);
    }
    lemma_collect_local(other, ls, q, keep);
}

proof fn lemma_block_end_same_block(a: Seq<Seq<char>>, b: Seq<Seq<char>>, p: int, q: int)
    requires
        0 <= p <= q <= a.len(),
        q == block_end(a, p),
        a.len() == b.len(),
        forall|i: int| p <= i < q ==> !b[i].contains('-'),
        q < a.len() ==> b[q] == a[q],
    ensures
        block_end(b, p) == q,
    decreases q - p,
{
    if p < q {
        lemma_block_end_same_block(a, b, p + 1, q);
    } else if q < a.len() {
        lemma_block_end_bounds(a, q + 1);
    }
}

/// What a caller gets by driving the incremental steps until the header
/// step yields no mapping: each header step followed by a usage step, a
/// malformed block counted as `InvalidUsage`.
pub open spec fn drive(ls: Seq<Seq<char>>, p: int) -> Result<Seq<(MappingView, Usage)>, Fault>
    decreases ls.len() - p via drive_decreases
{
    if p < 0 || p >= ls.len() {
        Ok(seq![])
    } else {
        match header_step(ls, p).1 {
            None => Ok(seq![]),
            Some(m) => match block_step(ls, header_step(ls, p).0) {
                Err(f) => Err(f),
                Ok((_, None)) => Err(Fault::InvalidUsage),
                Ok((q, Some(u))) => match drive(ls, q) {
                    Ok(rest) => Ok(seq![(m, u)] + rest),
                    Err(f) => Err(f),
                },
            },
        }
    }
}

#[via_fn]
proof fn drive_decreases(ls: Seq<Seq<char>>, p: int) {
    if 0 <= p < ls.len() {
        lemma_block_end_bounds(ls, p + 1);
    }
}

/// Driving the incremental steps to the end gives the records that bulk
/// reading without a filter gives, wherever bulk reading succeeds.
pub proof fn incremental_matches_bulk(ls: Seq<Seq<char>>, p: int)
    requires
        0 <= p <= ls.len(),
        collect(ls, p, |m: MappingView| true) is Ok,
    ensures
        drive(ls, p) == collect(ls, p, |m: MappingView| true),
    decreases ls.len() - p,
{
    if p < ls.len() {
        lemma_block_end_bounds(ls, p + 1);
        let q = block_end(ls, p + 1);
        if let BlockOutcome::Done(_) = usage_block(ls, p + 1, zero_usage()) {
            incremental_matches_bulk(ls, q);
        }
    }
}

/// The lower-case character of the digit `d`, below 16.
pub open spec fn digit_char(d: nat) -> char {
    if d == 0 {
        '0'
    } else if d == 1 {
        '1'
    } else if d == 2 {
        '2'
    } else if d == 3 {
        '3'
    } else if d == 4 {
        '4'
    } else if d == 5 {
        '5'
    } else if d == 6 {
        '6'
    } else if d == 7 {
        '7'
    } else if d == 8 {
        '8'
    } else if d == 9 {
        '9'
    } else if d == 10 {
        'a'
    } else if d == 11 {
        'b'
    } else if d == 12 {
        'c'
    } else if d == 13 {
        'd'
    } else if d == 14 {
        'e'
    } else {
        'f'
    }
}

proof fn lemma_digit_char(d: nat, radix: nat)
    requires
        radix == 10 || radix == 16,
        d < radix,
    ensures
        is_digit(digit_char(d), radix as int),
        digit_val(digit_char(d)) == d,
{
}

/// `n` written in base `radix`, without sign or leading zeros.
pub open spec fn digits_text(n: nat, radix: nat) -> Seq<char>
    decreases n via digits_text_decreases
{
    if radix < 2 || n < radix {
        seq![digit_char(n)]
    } else {
        digits_text(n / radix, radix).push(digit_char(n % radix))
    }
}

#[via_fn]
proof fn digits_text_decreases(n: nat, radix: nat) {
    if radix >= 2 && n >= radix {
        assert(n / radix < n) by (nonlinear_arith)
            requires
                radix >= 2,
                n >= radix,
        ;
    }
}

/// A number written in base 10 or 16 reads back as itself wherever it is
/// within the field's limit, as the numeric fields of a header line do.
pub proof fn number_round_trips(n: nat, radix: nat, limit: int)
    requires
        radix == 10 || radix == 16,
        n <= limit,
    ensures
        number(digits_text(n, radix), radix as int, limit) == Some(n as int),
    decreases n,
{
    let t = digits_text(n, radix);
    if n < radix {
        lemma_digit_char(n, radix);
        assert(t.drop_last() =~= Seq::<char>::empty());
        assert(t[0] == digit_char(n));
        assert(t.last() == digit_char(n));
        assert(digits_value(t.drop_last(), radix as int) == 0);
        assert(digits_value(t, radix as int) == 0 * (radix as int) + digit_val(digit_char(n)));
        assert(digits_value(t, radix as int) == n);
        assert(all_digits(t, radix as int));
    } else {
        let q = n / radix;
        let d = n % radix;
        assert(q < n && q * radix + d == n && d < radix) by (nonlinear_arith)
            requires
                radix >= 2,
                n >= radix,
                q == n / radix,
                d == n % radix,
        ;
        number_round_trips(q, radix, limit);
        lemma_digit_char(d, radix);
        assert(t.drop_last() =~= digits_text(q, radix));
        assert forall|i: int| 0 <= i < t.len() implies is_digit(#[trigger] t[i], radix as int) by {
            if i < t.len() - 1 {
                assert(t[i] == digits_text(q, radix)[i]);
            }
        }
        assert(t.last() == digit_char(d));
        assert(digits_value(t, radix as int) == digits_value(digits_text(q, radix), radix as int)
            * radix + d);
        assert(digits_value(t, radix as int) == n);
    }
}

/// A word of `s` at `i`, followed by a space or by the end of `s`.
proof fn lemma_word_at(s: Seq<char>, i: int, j: int)
    requires
        0 <= i < j <= s.len(),
        forall|k: int| i <= k < j ==> !is_ws(#[trigger] s[k]),
        j == s.len() || s[j] == ' ',
    ensures
        spans_from(s, i) == seq![(i, j)] + spans_from(s, if j == s.len() { j } else { j + 1 }),
{
    lemma_word_end_at(s, i, j);
    assert(!is_ws(s[i]));
    assert(spans_from(s, i) == seq![(i, j)] + spans_from(s, j));
    if j < s.len() {
        assert(is_ws(s[j]));
        assert(spans_from(s, j) == spans_from(s, j + 1));
    }
}

proof fn lemma_word_end_at(s: Seq<char>, i: int, j: int)
    requires
        0 <= i <= j <= s.len(),
        forall|k: int| i <= k < j ==> !is_ws(#[trigger] s[k]),
        j == s.len() || s[j] == ' ',
    ensures
        word_end(s, i) == j,
    decreases j - i,
{
    if i < j {
        lemma_word_end_at(s, i + 1, j);
    }
}

/// From a word start on, the last word of `s` ends where `s` does, when
/// `s` ends with no whitespace.
proof fn lemma_last_word_ends(s: Seq<char>, i: int)
    requires
        0 <= i < s.len(),
        !is_ws(s[s.len() - 1]),
    ensures
        spans_from(s, i).len() > 0,
        spans_from(s, i).last().1 == s.len(),
        !is_ws(s[i]) ==> spans_from(s, i)[0].0 == i,
    decreases s.len() - i,
{
    if is_ws(s[i]) {
        lemma_last_word_ends(s, i + 1);
    } else {
        lemma_word_end_bounds(s, i + 1);
        let e = word_end(s, i);
        if e < s.len() {
            lemma_last_word_ends(s, e);
        }
    }
}

proof fn lemma_first_at(t: Seq<char>, c: char, i: int, k: int)
    requires
        0 <= i <= k < t.len(),
        t[k] == c,
        forall|j: int| i <= j < k ==> t[j] != c,
    ensures
        first_from(t, c, i) == k,
    decreases k - i,
{
    if i < k {
        lemma_first_at(t, c, i + 1, k);
    }
}

proof fn lemma_digits_text_chars(n: nat, radix: nat)
    requires
        radix == 10 || radix == 16,
    ensures
        forall|i: int| 0 <= i < digits_text(n, radix).len() ==> is_digit(
            #[trigger] digits_text(n, radix)[i],
            radix as int,
        ),
        digits_text(n, radix).len() > 0,
{
    number_round_trips(n, radix, n as int);
}

/// Two numbers in hex around `c`, as the address range and the device are
/// written.
pub open spec fn hex_pair(a: nat, c: char, b: nat) -> Seq<char> {
    digits_text(a, 16) + seq![c] + digits_text(b, 16)
}

proof fn lemma_hex_pair(a: nat, c: char, b: nat)
    requires
        c == '-' || c == ':',
    ensures
        split_once(hex_pair(a, c, b), c) == Some((digits_text(a, 16), digits_text(b, 16))),
        forall|i: int| 0 <= i < hex_pair(a, c, b).len() ==> !is_ws(#[trigger] hex_pair(a, c, b)[i]),
{
    let x = digits_text(a, 16);
    let y = digits_text(b, 16);
    let t = hex_pair(a, c, b);
    lemma_digits_text_chars(a, 16);
    lemma_digits_text_chars(b, 16);
    assert(t[x.len() as int] == c);
    assert forall|j: int| 0 <= j < x.len() implies t[j] != c by {
        assert(t[j] == x[j]);
    }
    lemma_first_at(t, c, 0, x.len() as int);
    assert(t.take(x.len() as int) =~= x);
    assert(t.skip(x.len() as int + 1) =~= y);
    assert forall|i: int| 0 <= i < t.len() implies !is_ws(#[trigger] t[i]) by {
        if i < x.len() {
            assert(t[i] == x[i]);
        } else if i > x.len() {
            assert(t[i] == y[i - x.len() - 1]);
        }
    }
}

/// The header line with these fields, one space between them.
pub open spec fn header_line(
    start: nat,
    end: nat,
    perms: Seq<char>,
    offset: nat,
    major: nat,
    minor: nat,
    inode: nat,
    path: Option<Seq<char>>,
) -> Seq<char> {
    let sp = seq![' '];
    hex_pair(start, '-', end) + sp + perms + sp + digits_text(offset, 16) + sp + hex_pair(
        major,
        ':',
        minor,
    ) + sp + digits_text(inode, 10) + match path {
        Some(p) => sp + p,
        None => seq![],
    }
}

/// Decoding a header line gives back the address range, permission quad,
/// offset, device, inode and path that it was written from.
#[verifier::rlimit(100)]
pub proof fn header_round_trips(
    start: nat,
    end: nat,
    perms: Seq<char>,
    offset: nat,
    major: nat,
    minor: nat,
    inode: nat,
    path: Option<Seq<char>>,
)
    requires
        start <= usize::MAX && end <= usize::MAX && offset <= usize::MAX && inode <= usize::MAX,
        major <= u32::MAX && minor <= u32::MAX,
        permissions_of(perms) is Some,
        path matches Some(p) ==> p.len() > 0 && !is_ws(p[0]) && !is_ws(p.last()),
    ensures
        header_of(header_line(start, end, perms, offset, major, minor, inode, path)) == Some(
            MappingView {
                start: start as usize,
                end: end as usize,
                permissions: permissions_of(perms)->0,
                offset: offset as usize,
                device: Device { major: major as u32, minor: minor as u32 },
                inode: inode as usize,
                path,
            },
        ),
{
    let sp = seq![' '];
    let t0 = hex_pair(start, '-', end);
    let t1 = perms;
    let t2 = digits_text(offset, 16);
    let t3 = hex_pair(major, ':', minor);
    let t4 = digits_text(inode, 10);
    let tail = match path {
        Some(p) => sp + p,
        None => seq![],
    };
    let s = header_line(start, end, perms, offset, major, minor, inode, path);
    lemma_hex_pair(start, '-', end);
    lemma_hex_pair(major, ':', minor);
    lemma_digits_text_chars(offset, 16);
    lemma_digits_text_chars(inode, 10);
    let o1: int = t0.len() as int + 1;
    let o2: int = o1 + t1.len() as int + 1;
    let o3: int = o2 + t2.len() as int + 1;
    let o4: int = o3 + t3.len() as int + 1;
    let e4: int = o4 + t4.len() as int;
    assert(s =~= t0 + sp + t1 + sp + t2 + sp + t3 + sp + t4 + tail);
    assert(s.len() == e4 + tail.len());
    assert(s.subrange(0, t0.len() as int) =~= t0);
    assert(s.subrange(o1, o1 + t1.len() as int) =~= t1);
    assert(s.subrange(o2, o2 + t2.len() as int) =~= t2);
    assert(s.subrange(o3, o3 + t3.len() as int) =~= t3);
    assert(s.subrange(o4, e4) =~= t4);
    assert(s.subrange(e4, s.len() as int) =~= tail);
    assert(s[o1 - 1] == ' ' && s[o2 - 1] == ' ' && s[o3 - 1] == ' ' && s[o4 - 1] == ' ');
    assert forall|k: int| 0 <= k < t0.len() implies !is_ws(#[trigger] s[k]) by {
        assert(s[k] == t0[k]);
    }
    assert forall|k: int| o1 <= k < o1 + t1.len() as int implies !is_ws(#[trigger] s[k]) by {
        assert(s[k] == t1[k - o1]);
    }
    assert forall|k: int| o2 <= k < o2 + t2.len() as int implies !is_ws(#[trigger] s[k]) by {
        assert(s[k] == t2[k - o2]);
    }
    assert forall|k: int| o3 <= k < o3 + t3.len() as int implies !is_ws(#[trigger] s[k]) by {
        assert(s[k] == t3[k - o3]);
    }
    assert forall|k: int| o4 <= k < e4 implies !is_ws(#[trigger] s[k]) by {
        assert(s[k] == t4[k - o4]);
    }
    lemma_word_at(s, 0, t0.len() as int);
    lemma_word_at(s, o1, o1 + t1.len() as int);
    lemma_word_at(s, o2, o2 + t2.len() as int);
    lemma_word_at(s, o3, o3 + t3.len() as int);
    let rest = if e4 == s.len() { e4 } else { e4 + 1 };
    assert(e4 < s.len() ==> s[e4] == ' ');
    lemma_word_at(s, o4, e4);
    let head = seq![
        (0int, t0.len() as int),
        (o1, o1 + t1.len() as int),
        (o2, o2 + t2.len() as int),
        (o3, o3 + t3.len() as int),
        (o4, e4),
    ];
    assert(spans(s) =~= head + spans_from(s, rest));
    match path {
        Some(p) => {
            assert(s[s.len() - 1] == p.last());
            assert(s[e4 + 1] == p[0]);
            lemma_last_word_ends(s, e4 + 1);
            assert(s.subrange(e4 + 1, s.len() as int) =~= p);
        },
        None => {
            assert(spans_from(s, rest) =~= Seq::<(int, int)>::empty());
        },
    }
    let w = words(s);
    assert(w[0] == t0 && w[1] == t1 && w[2] == t2 && w[3] == t3 && w[4] == t4);
    number_round_trips(start, 16, usize::MAX as int);
    number_round_trips(end, 16, usize::MAX as int);
    number_round_trips(offset, 16, usize::MAX as int);
    number_round_trips(major, 16, u32::MAX as int);
    number_round_trips(minor, 16, u32::MAX as int);
    number_round_trips(inode, 10, usize::MAX as int);
}

} // verus!
