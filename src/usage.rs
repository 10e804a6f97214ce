//! Decoding of the detail lines that follow a header: `KEY: NUMBER [UNIT]`
//! lines and the `VmFlags:` line.

use vstd::prelude::*;
use vstd::arithmetic::power2::{lemma2_to64, lemma2_to64_rest, pow2};

use crate::text::{
    all_digits, chars_of, digits_value, parse_digits, spans, spans_as_int, spans_from, span_is,
    word_spans, word_spans_from, words,
};
use crate::types::{Error, Fault, Usage, VmFlags};

verus! {

/// The power of two that a unit stands for: kB, mB, gB and tB are 2^10,
/// 2^20, 2^30 and 2^40.
pub open spec fn unit_shift(u: Seq<char>) -> Option<nat> {
    if u == "kB"@ {
        Some(10)
    } else if u == "mB"@ {
        Some(20)
    } else if u == "gB"@ {
        Some(30)
    } else if u == "tB"@ {
        Some(40)
    } else {
        None
    }
}

/// `t` without its trailing colons.
pub open spec fn strip_colons(t: Seq<char>) -> Seq<char>
    decreases t.len(),
{
    if t.len() > 0 && t.last() == ':' {
        strip_colons(t.drop_last())
    } else {
        t
    }
}

/// What a `KEY: NUMBER [UNIT]` line decodes to.
pub enum SizedLine {
    /// Fewer than two words, more than three, or a number that is not one.
    Malformed,
    /// A third word that is no known unit.
    UnknownUnit(Seq<char>),
    /// The key, colons stripped, and the number scaled by its unit.
    Entry(Seq<char>, nat),
}

pub open spec fn sized_line(s: Seq<char>) -> SizedLine {
    let w = words(s);
    if w.len() < 2 {
        SizedLine::Malformed
    } else if w.len() >= 3 && unit_shift(w[2]) is None {
        SizedLine::UnknownUnit(w[2])
    } else if w.len() >= 4 {
        SizedLine::Malformed
    } else {
        let shift: nat = if w.len() == 3 {
            unit_shift(w[2])->0
        } else {
            0
        };
        if all_digits(w[1], 10) && digits_value(w[1], 10) * pow2(shift) <= usize::MAX {
            SizedLine::Entry(strip_colons(w[0]), (digits_value(w[1], 10) * pow2(shift)) as nat)
        } else {
            SizedLine::Malformed
        }
    }
}

/// `u` with the field that `key` names set from `v`; `None` for a key
/// outside the known set.
pub open spec fn with_key(u: Usage, key: Seq<char>, v: usize) -> Option<Usage> {
    if key == "Size"@ {
        Some(Usage { size: v, ..u })
    } else if key == "KernelPageSize"@ {
        Some(Usage { kernel_page_size: v, ..u })
    } else if key == "MMUPageSize"@ {
        Some(Usage { mmu_page_size: v, ..u })
    } else if key == "Rss"@ {
        Some(Usage { rss: v, ..u })
    } else if key == "Pss"@ {
        Some(Usage { pss: v, ..u })
    } else if key == "Pss_Dirty"@ {
        Some(Usage { pss_dirty: v, ..u })
    } else if key == "Shared_Clean"@ {
        Some(Usage { shared_clean: v, ..u })
    } else if key == "Shared_Dirty"@ {
        Some(Usage { shared_dirty: v, ..u })
    } else if key == "Private_Clean"@ {
        Some(Usage { private_clean: v, ..u })
    } else if key == "Private_Dirty"@ {
        Some(Usage { private_dirty: v, ..u })
    } else if key == "Referenced"@ {
        Some(Usage { referenced: v, ..u })
    } else if key == "Anonymous"@ {
        Some(Usage { anonymous: v, ..u })
    } else if key == "KSM"@ {
        Some(Usage { ksm: v, ..u })
    } else if key == "LazyFree"@ {
        Some(Usage { lazy_free: v, ..u })
    } else if key == "AnonHugePages"@ {
        Some(Usage { anon_huge_pages: v, ..u })
    } else if key == "ShmemPmdMapped"@ {
        Some(Usage { shmem_pmd_mapped: v, ..u })
    } else if key == "FilePmdMapped"@ {
        Some(Usage { file_pmd_mapped: v, ..u })
    } else if key == "Shared_Hugetlb"@ {
        Some(Usage { shared_hugetlb: v, ..u })
    } else if key == "Private_Hugetlb"@ {
        Some(Usage { private_hugetlb: v, ..u })
    } else if key == "Swap"@ {
        Some(Usage { swap: v, ..u })
    } else if key == "SwapPss"@ {
        Some(Usage { swap_pss: v, ..u })
    } else if key == "Locked"@ {
        Some(Usage { locked: v, ..u })
    } else if key == "THPeligible"@ {
        Some(Usage { thp_eligible: v != 0, ..u })
    } else if key == "ProtectionKey"@ {
        Some(Usage { protection_key: Some(v), ..u })
    } else {
        None
    }
}


/// Sets the field that `s[a..b]` names; false, with `u` unchanged, for a
/// key outside the known set.
fn set_field(u: &mut Usage, s: &Vec<char>, a: usize, b: usize, v: usize) -> (r: bool)
    requires
        a <= b <= s@.len(),
    ensures
        r == with_key(*old(u), s@.subrange(a as int, b as int), v) is Some,
        r ==> Some(*final(u)) == with_key(*old(u), s@.subrange(a as int, b as int), v),
        !r ==> *final(u) == *old(u),
{
    if span_is(s, a, b, "Size") {
        u.size = v;
    } else if span_is(s, a, b, "KernelPageSize") {
        u.kernel_page_size = v;
    } else if span_is(s, a, b, "MMUPageSize") {
        u.mmu_page_size = v;
    } else if span_is(s, a, b, "Rss") {
        u.rss = v;
    } else if span_is(s, a, b, "Pss") {
        u.pss = v;
    } else if span_is(s, a, b, "Pss_Dirty") {
        u.pss_dirty = v;
    } else if span_is(s, a, b, "Shared_Clean") {
        u.shared_clean = v;
    } else if span_is(s, a, b, "Shared_Dirty") {
        u.shared_dirty = v;
    } else if span_is(s, a, b, "Private_Clean") {
        u.private_clean = v;
    } else if span_is(s, a, b, "Private_Dirty") {
        u.private_dirty = v;
    } else if span_is(s, a, b, "Referenced") {
        u.referenced = v;
    } else if span_is(s, a, b, "Anonymous") {
        u.anonymous = v;
    } else if span_is(s, a, b, "KSM") {
        u.ksm = v;
    } else if span_is(s, a, b, "LazyFree") {
        u.lazy_free = v;
    } else if span_is(s, a, b, "AnonHugePages") {
        u.anon_huge_pages = v;
    } else if span_is(s, a, b, "ShmemPmdMapped") {
        u.shmem_pmd_mapped = v;
    } else if span_is(s, a, b, "FilePmdMapped") {
        u.file_pmd_mapped = v;
    } else if span_is(s, a, b, "Shared_Hugetlb") {
        u.shared_hugetlb = v;
    } else if span_is(s, a, b, "Private_Hugetlb") {
        u.private_hugetlb = v;
    } else if span_is(s, a, b, "Swap") {
        u.swap = v;
    } else if span_is(s, a, b, "SwapPss") {
        u.swap_pss = v;
    } else if span_is(s, a, b, "Locked") {
        u.locked = v;
    } else if span_is(s, a, b, "THPeligible") {
        u.thp_eligible = v != 0;
    } else if span_is(s, a, b, "ProtectionKey") {
        u.protection_key = Some(v);
    } else {
        return false;
    }
    true
}

/// The bit of a two-letter `VmFlags` mnemonic.
pub open spec fn mnemonic_bit(c0: char, c1: char) -> Option<u32> {
    match (c0, c1) {
        ('r', 'd') => Some(VmFlags::RD),
        ('w', 'r') => Some(VmFlags::WR),
        ('e', 'x') => Some(VmFlags::EX),
        ('s', 'h') => Some(VmFlags::SH),
        ('m', 'r') => Some(VmFlags::MR),
        ('m', 'w') => Some(VmFlags::MW),
        ('m', 'e') => Some(VmFlags::ME),
        ('m', 's') => Some(VmFlags::MS),
        ('g', 'd') => Some(VmFlags::GD),
        ('p', 'f') => Some(VmFlags::PF),
        ('d', 'w') => Some(VmFlags::DW),
        ('l', 'o') => Some(VmFlags::LO),
        ('i', 'o') => Some(VmFlags::IO),
        ('s', 'r') => Some(VmFlags::SR),
        ('r', 'r') => Some(VmFlags::RR),
        ('d', 'c') => Some(VmFlags::DC),
        ('d', 'e') => Some(VmFlags::DE),
        ('a', 'c') => Some(VmFlags::AC),
        ('n', 'r') => Some(VmFlags::NR),
        ('h', 't') => Some(VmFlags::HT),
        ('s', 'f') => Some(VmFlags::SF),
        ('n', 'l') => Some(VmFlags::NL),
        ('a', 'r') => Some(VmFlags::AR),
        ('w', 'f') => Some(VmFlags::WF),
        ('d', 'd') => Some(VmFlags::DD),
        ('s', 'd') => Some(VmFlags::SD),
        ('m', 'm') => Some(VmFlags::MM),
        ('h', 'g') => Some(VmFlags::HG),
        ('n', 'h') => Some(VmFlags::NH),
        ('m', 'g') => Some(VmFlags::MG),
        ('u', 'm') => Some(VmFlags::UM),
        ('u', 'w') => Some(VmFlags::UW),
        _ => None,
    }
}

pub open spec fn flag_of(t: Seq<char>) -> Option<u32> {
    if t.len() == 2 {
        mnemonic_bit(t[0], t[1])
    } else {
        None
    }
}

/// The union of the flags of the words at spans `sp` of `s`, or the first
/// word that is no mnemonic.
pub open spec fn flags_of(s: Seq<char>, sp: Seq<(int, int)>) -> Result<u32, Seq<char>>
    decreases sp.len(),
{
    if sp.len() == 0 {
        Ok(0)
    } else {
        match flags_of(s, sp.drop_last()) {
            Err(t) => Err(t),
            Ok(b) => {
                let t = s.subrange(sp.last().0, sp.last().1);
                match flag_of(t) {
                    Some(f) => Ok(b | f),
                    None => Err(t),
                }
            },
        }
    }
}

fn mnemonic(c0: char, c1: char) -> (r: Option<u32>)
    ensures
        r == mnemonic_bit(c0, c1),
{
    match (c0, c1) {
        ('r', 'd') => Some(VmFlags::RD),
        ('w', 'r') => Some(VmFlags::WR),
        ('e', 'x') => Some(VmFlags::EX),
        ('s', 'h') => Some(VmFlags::SH),
        ('m', 'r') => Some(VmFlags::MR),
        ('m', 'w') => Some(VmFlags::MW),
        ('m', 'e') => Some(VmFlags::ME),
        ('m', 's') => Some(VmFlags::MS),
        ('g', 'd') => Some(VmFlags::GD),
        ('p', 'f') => Some(VmFlags::PF),
        ('d', 'w') => Some(VmFlags::DW),
        ('l', 'o') => Some(VmFlags::LO),
        ('i', 'o') => Some(VmFlags::IO),
        ('s', 'r') => Some(VmFlags::SR),
        ('r', 'r') => Some(VmFlags::RR),
        ('d', 'c') => Some(VmFlags::DC),
        ('d', 'e') => Some(VmFlags::DE),
        ('a', 'c') => Some(VmFlags::AC),
        ('n', 'r') => Some(VmFlags::NR),
        ('h', 't') => Some(VmFlags::HT),
        ('s', 'f') => Some(VmFlags::SF),
        ('n', 'l') => Some(VmFlags::NL),
        ('a', 'r') => Some(VmFlags::AR),
        ('w', 'f') => Some(VmFlags::WF),
        ('d', 'd') => Some(VmFlags::DD),
        ('s', 'd') => Some(VmFlags::SD),
        ('m', 'm') => Some(VmFlags::MM),
        ('h', 'g') => Some(VmFlags::HG),
        ('n', 'h') => Some(VmFlags::NH),
        ('m', 'g') => Some(VmFlags::MG),
        ('u', 'm') => Some(VmFlags::UM),
        ('u', 'w') => Some(VmFlags::UW),
        _ => None,
    }
}

/// Decodes the words of `s` from index `from` on as `VmFlags` mnemonics.
fn parse_vm_flags(line: &str, s: &Vec<char>, from: usize) -> (r: Result<VmFlags, Error>)
    requires
        s@ == line@,
        from <= s@.len(),
    ensures
        match flags_of(s@, spans_from(s@, from as int)) {
            Ok(b) => r matches Ok(f) && f.bits == b,
            Err(t) => r matches Err(e) && e@ == Fault::UnknownFlag(t),
        },
{
    let sp = word_spans_from(s, from);
    let ghost spv = spans_from(s@, from as int);
    let mut acc: u32 = 0;
    let mut k: usize = 0;
    assert(spv.take(0) =~= Seq::<(int, int)>::empty());
    while k < sp.len()
        invariant
            k <= sp@.len(),
            s@ == line@,
            spans_as_int(sp@) == spv,
            spv == spans_from(s@, from as int),
            crate::text::spans_ordered(spv, s@.len() as int),
            flags_of(s@, spv.take(k as int)) == Ok::<u32, Seq<char>>(acc),
        decreases sp@.len() - k,
    {
        let (a, b) = sp[k];
        assert(spans_as_int(sp@)[k as int] == spv[k as int]);
        assert(spv.take(k + 1).drop_last() =~= spv.take(k as int));
        assert(spv.take(k + 1).last() == spv[k as int]);
        let bit = if b - a == 2 {
            mnemonic(s[a], s[a + 1])
        } else {
            None
        };
        match bit {
            Some(f) => {
                proof {
                    let t = s@.subrange(a as int, b as int);
                    assert(t[0] == s@[a as int] && t[1] == s@[a + 1]);
                    assert(flag_of(t) == Some(f));
                }
                acc = acc | f;
            },
            None => {
                proof {
                    let t = s@.subrange(a as int, b as int);
                    if b - a == 2 {
                        assert(t[0] == s@[a as int] && t[1] == s@[a + 1]);
                    }
                    assert(flag_of(t) is None);
                    assert(flags_of(s@, spv.take(k + 1)) == Err::<u32, Seq<char>>(t));
                    lemma_flags_err_kept(s@, spv, k + 1);
                }
                return Err(Error::UnknownFlag(line.substring_char(a, b).to_owned()));
            },
        }
        k += 1;
    }
    assert(spv.take(k as int) =~= spv);
    Ok(VmFlags { bits: acc })
}

/// A word that is no mnemonic stays the error however many words follow.
proof fn lemma_flags_err_kept(s: Seq<char>, sp: Seq<(int, int)>, k: int)
    requires
        0 <= k <= sp.len(),
        flags_of(s, sp.take(k)) is Err,
    ensures
        flags_of(s, sp) == flags_of(s, sp.take(k)),
    decreases sp.len() - k,
{
    if k < sp.len() {
        assert(sp.take(k + 1).drop_last() =~= sp.take(k));
        lemma_flags_err_kept(s, sp, k + 1);
    } else {
        assert(sp.take(k) =~= sp);
    }
}

/// Decodes a `KEY: NUMBER [UNIT]` line into the span of its key, colons
/// stripped, and its scaled number.
fn parse_sized_value(line: &str, s: &Vec<char>) -> (r: Result<Option<(usize, usize, usize)>, Error>)
    requires
        s@ == line@,
    ensures
        match sized_line(s@) {
            SizedLine::Malformed => r matches Ok(None),
            SizedLine::UnknownUnit(t) => r matches Err(e) && e@ == Fault::UnknownUnit(t),
            SizedLine::Entry(k, v) => r matches Ok(Some((a, b, val))) && a <= b <= s@.len()
                && s@.subrange(a as int, b as int) == k && val == v,
        },
{
    let sp = word_spans(s);
    let ghost w = words(s@);
    let ghost spv = spans(s@);
    assert forall|k: int| 0 <= k < sp@.len() implies sp@[k].0 as int == #[trigger] spv[k].0
        && sp@[k].1 as int == spv[k].1 && w[k] == s@.subrange(spv[k].0, spv[k].1) by {
        assert(spans_as_int(sp@)[k] == spv[k]);
    }
    if sp.len() < 2 {
        return Ok(None);
    }
    let ghost shift: nat = 0;
    let mut factor: u64 = 1;
    proof {
        lemma2_to64();
        lemma2_to64_rest();
    }
    if sp.len() >= 3 {
        let (a2, b2) = sp[2];
        if span_is(s, a2, b2, "kB") {
            factor = 1024;
            proof { shift = 10; }
        } else if span_is(s, a2, b2, "mB") {
            factor = 1048576;
            proof { shift = 20; }
        } else if span_is(s, a2, b2, "gB") {
            factor = 1073741824;
            proof { shift = 30; }
        } else if span_is(s, a2, b2, "tB") {
            factor = 1099511627776;
            proof { shift = 40; }
        } else {
            return Err(Error::UnknownUnit(line.substring_char(a2, b2).to_owned()));
        }
        if sp.len() >= 4 {
            return Ok(None);
        }
    }
    assert(factor == pow2(shift));
    assert(sp@.len() == 3 ==> unit_shift(w[2]) == Some(shift));
    let (a1, b1) = sp[1];
    let limit: u64 = (usize::MAX as u64) / factor;
    let v = match parse_digits(s, a1, b1, 10, limit) {
        Some(v) => v,
        None => {
            proof {
                if all_digits(w[1], 10) {
                    crate::text::lemma_digits_nonneg(w[1], 10);
                    let d = digits_value(w[1], 10);
                    assert(d * factor > usize::MAX) by (nonlinear_arith)
                        requires
                            d > limit,
                            limit == (usize::MAX as int) / (factor as int),
                            factor >= 1,
                    ;
                }
            }
            return Ok(None);
        },
    };
    assert(v * factor <= usize::MAX) by (nonlinear_arith)
        requires
            v <= limit,
            limit == (usize::MAX as int) / (factor as int),
            factor >= 1,
    ;
    let (a0, b0) = sp[0];
    let mut kend: usize = b0;
    while kend > a0 && s[kend - 1] == ':'
        invariant
            a0 <= kend <= b0 <= s@.len(),
            strip_colons(s@.subrange(a0 as int, b0 as int)) == strip_colons(
                s@.subrange(a0 as int, kend as int),
            ),
        decreases kend,
    {
        assert(s@.subrange(a0 as int, kend as int).drop_last() =~= s@.subrange(
            a0 as int,
            kend - 1,
        ));
        kend -= 1;
    }
    Ok(Some((a0, kend, (v * factor) as usize)))
}

/// What one detail line does to the usage gathered so far.
pub enum LineStep {
    /// A key, unit or flag outside the known sets.
    Fatal(Fault),
    /// The line does not follow the grammar.
    Invalid,
    /// The usage with the line applied.
    Next(Usage),
}

/// Where the mnemonics of a `VmFlags` line begin: after `VmFlags:`, if the
/// line starts so.
pub open spec fn flags_start(s: Seq<char>) -> int {
    if s.len() >= 8 && s.take(8) == "VmFlags:"@ {
        8
    } else {
        0
    }
}

pub open spec fn usage_step(u: Usage, s: Seq<char>) -> LineStep {
    if s.len() >= 7 && s.take(7) == "VmFlags"@ {
        match flags_of(s, spans_from(s, flags_start(s))) {
            Ok(b) => LineStep::Next(Usage { vm_flags: VmFlags { bits: b }, ..u }),
            Err(t) => LineStep::Fatal(Fault::UnknownFlag(t)),
        }
    } else {
        match sized_line(s) {
            SizedLine::Malformed => LineStep::Invalid,
            SizedLine::UnknownUnit(t) => LineStep::Fatal(Fault::UnknownUnit(t)),
            SizedLine::Entry(k, v) => match with_key(u, k, v as usize) {
                Some(u2) => LineStep::Next(u2),
                None => LineStep::Fatal(Fault::UnknownKey(k)),
            },
        }
    }
}

/// Applies one detail line to `u`: `Ok(true)` where it was applied,
/// `Ok(false)` where the line is malformed.
pub fn apply_line(u: &mut Usage, line: &str) -> (r: Result<bool, Error>)
    ensures
        match usage_step(*old(u), line@) {
            LineStep::Fatal(f) => r matches Err(e) && e@ == f,
            LineStep::Invalid => r matches Ok(false) && *final(u) == *old(u),
            LineStep::Next(u2) => r matches Ok(true) && *final(u) == u2,
        },
{
    let s = chars_of(line);
    if s.len() >= 7 && span_is(&s, 0, 7, "VmFlags") {
        assert(s@.subrange(0, 7) =~= s@.take(7));
        let from: usize = if s.len() >= 8 && span_is(&s, 0, 8, "VmFlags:") {
            assert(s@.subrange(0, 8) =~= s@.take(8));
            8
        } else {
            assert(s@.len() >= 8 ==> s@.subrange(0, 8) =~= s@.take(8));
            0
        };
        let flags = parse_vm_flags(line, &s, from)?;
        u.vm_flags = flags;
        return Ok(true);
    }
    assert(s@.len() >= 7 ==> s@.subrange(0, 7) =~= s@.take(7));
    match parse_sized_value(line, &s)? {
        None => Ok(false),
        Some((a, b, v)) => {
            if set_field(u, &s, a, b, v) {
                Ok(true)
            } else {
                Err(Error::UnknownKey(line.substring_char(a, b).to_owned()))
            }
        },
    }
}

} // verus!
