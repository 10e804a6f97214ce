//! Decoding of a mapping header line:
//! `START-END PERMS OFFSET MAJ:MIN INODE [PATH...]`.

use vstd::prelude::*;

use crate::text::{
    all_digits, chars_of, digits_value, find_char, parse_digits, spans, split_once, word_spans,
    words,
};
use crate::types::{Device, Mapping, MappingView, Permissions};

verus! {

/// The number that `t` writes in base `radix`, where it is all digits and
/// at most `limit`.
pub open spec fn number(t: Seq<char>, radix: int, limit: int) -> Option<int> {
    if all_digits(t, radix) && digits_value(t, radix) <= limit {
        Some(digits_value(t, radix))
    } else {
        None
    }
}

/// A permission quad: `r` or `-`, `w` or `-`, `x` or `-`, then `s` or `p`.
pub open spec fn permissions_of(t: Seq<char>) -> Option<Permissions> {
    if t.len() == 4 && (t[0] == '-' || t[0] == 'r') && (t[1] == '-' || t[1] == 'w') && (t[2]
        == '-' || t[2] == 'x') && (t[3] == 's' || t[3] == 'p') {
        Some(
            Permissions {
                bits: ((if t[0] == 'r' {
                    4int
                } else {
                    0
                }) + (if t[1] == 'w' {
                    2int
                } else {
                    0
                }) + (if t[2] == 'x' {
                    1int
                } else {
                    0
                }) + (if t[3] == 's' {
                    8int
                } else {
                    16
                })) as u8,
            },
        )
    } else {
        None
    }
}

/// `MAJ:MIN`, both in hexadecimal.
pub open spec fn device_of(t: Seq<char>) -> Option<Device> {
    match split_once(t, ':') {
        Some((x, y)) => match (number(x, 16, u32::MAX as int), number(y, 16, u32::MAX as int)) {
            (Some(major), Some(minor)) => Some(Device { major: major as u32, minor: minor as u32 }),
            _ => None,
        },
        None => None,
    }
}

/// The mapping that the header line `s` describes, if it is one.
/// The path is the rest of the line from the sixth word on, as written.
pub open spec fn header_of(s: Seq<char>) -> Option<MappingView> {
    let w = words(s);
    let sp = spans(s);
    if w.len() < 5 {
        None
    } else {
        match (
            split_once(w[0], '-'),
            permissions_of(w[1]),
            number(w[2], 16, usize::MAX as int),
            device_of(w[3]),
            number(w[4], 10, usize::MAX as int),
        ) {
            (Some((lo, hi)), Some(permissions), Some(offset), Some(device), Some(inode)) => {
                match (number(lo, 16, usize::MAX as int), number(hi, 16, usize::MAX as int)) {
                    (Some(start), Some(end)) => Some(
                        MappingView {
                            start: start as usize,
                            end: end as usize,
                            permissions,
                            offset: offset as usize,
                            device,
                            inode: inode as usize,
                            path: if w.len() > 5 {
                                Some(s.subrange(sp[5].0, sp[w.len() - 1].1))
                            } else {
                                None
                            },
                        },
                    ),
                    _ => None,
                }
            },
            _ => None,
        }
    }
}

fn parse_number(s: &Vec<char>, a: usize, b: usize, radix: u32, limit: u64) -> (r: Option<u64>)
    requires
        a <= b <= s@.len(),
        radix == 10 || radix == 16,
    ensures
        r matches Some(v) ==> number(s@.subrange(a as int, b as int), radix as int, limit as int)
            == Some(v as int),
        r is None ==> number(s@.subrange(a as int, b as int), radix as int, limit as int) is None,
{
    parse_digits(s, a, b, radix, limit)
}

fn parse_permissions(s: &Vec<char>, a: usize, b: usize) -> (r: Option<Permissions>)
    requires
        a <= b <= s@.len(),
    ensures
        r == permissions_of(s@.subrange(a as int, b as int)),
{
    let ghost t = s@.subrange(a as int, b as int);
    if b - a != 4 {
        return None;
    }
    let read: u8 = if s[a] == 'r' {
        4
    } else if s[a] == '-' {
        0
    } else {
        return None;
    };
    let write: u8 = if s[a + 1] == 'w' {
        2
    } else if s[a + 1] == '-' {
        0
    } else {
        return None;
    };
    let execute: u8 = if s[a + 2] == 'x' {
        1
    } else if s[a + 2] == '-' {
        0
    } else {
        return None;
    };
    let shared: u8 = if s[a + 3] == 's' {
        8
    } else if s[a + 3] == 'p' {
        16
    } else {
        return None;
    };
    assert(t[0] == s@[a as int] && t[1] == s@[a + 1] && t[2] == s@[a + 2] && t[3] == s@[a + 3]);
    Some(Permissions { bits: read + write + execute + shared })
}

fn parse_device(s: &Vec<char>, a: usize, b: usize) -> (r: Option<Device>)
    requires
        a <= b <= s@.len(),
    ensures
        r == device_of(s@.subrange(a as int, b as int)),
{
    let ghost t = s@.subrange(a as int, b as int);
    let k = match find_char(s, a, b, ':') {
        Some(k) => k,
        None => return None,
    };
    assert(t.take(k - a) =~= s@.subrange(a as int, k as int));
    assert(t.skip(k - a + 1) =~= s@.subrange(k + 1, b as int));
    let major = match parse_number(s, a, k, 16, 0xffff_ffff) {
        Some(v) => v,
        None => return None,
    };
    let minor = match parse_number(s, k + 1, b, 16, 0xffff_ffff) {
        Some(v) => v,
        None => return None,
    };
    Some(Device { major: major as u32, minor: minor as u32 })
}

impl Mapping {
    /// Decodes one header line; `None` where any mandatory field is missing
    /// or does not decode.
    pub fn parse(line: &str) -> (r: Option<Mapping>)
        ensures
            r matches Some(m) ==> header_of(line@) == Some(m@),
            r is None ==> header_of(line@) is None,
    {
        let s = chars_of(line);
        let sp = word_spans(&s);
        let ghost w = words(s@);
        let ghost spv = spans(s@);
        assert forall|k: int| 0 <= k < sp@.len() implies sp@[k].0 as int == #[trigger] spv[k].0
            && sp@[k].1 as int == spv[k].1 && w[k] == s@.subrange(spv[k].0, spv[k].1) by {
            assert(crate::text::spans_as_int(sp@)[k] == spv[k]);
        }
        if sp.len() < 5 {
            return None;
        }
        let (a0, b0) = sp[0];
        let (a1, b1) = sp[1];
        let (a2, b2) = sp[2];
        let (a3, b3) = sp[3];
        let (a4, b4) = sp[4];
        assert(spv[0].0 == a0 && spv[1].0 == a1 && spv[2].0 == a2 && spv[3].0 == a3 && spv[4].0
            == a4);
        let dash = match find_char(&s, a0, b0, '-') {
            Some(k) => k,
            None => return None,
        };
        assert(w[0].take(dash - a0) =~= s@.subrange(a0 as int, dash as int));
        assert(w[0].skip(dash - a0 + 1) =~= s@.subrange(dash + 1, b0 as int));
        let permissions = match parse_permissions(&s, a1, b1) {
            Some(p) => p,
            None => return None,
        };
        let offset = match parse_number(&s, a2, b2, 16, usize::MAX as u64) {
            Some(v) => v,
            None => return None,
        };
        let device = match parse_device(&s, a3, b3) {
            Some(d) => d,
            None => return None,
        };
        let inode = match parse_number(&s, a4, b4, 10, usize::MAX as u64) {
            Some(v) => v,
            None => return None,
        };
        let start = match parse_number(&s, a0, dash, 16, usize::MAX as u64) {
            Some(v) => v,
            None => return None,
        };
        let end = match parse_number(&s, dash + 1, b0, 16, usize::MAX as u64) {
            Some(v) => v,
            None => return None,
        };
        let path = if sp.len() > 5 {
            let first = sp[5].0;
            let last = sp[sp.len() - 1].1;
            assert(spv[5].0 <= spv[sp@.len() - 1].1) by {
                if sp@.len() - 1 > 5 {
                    assert(spv[5].1 <= spv[sp@.len() - 1].0);
                }
            }
            Some(line.substring_char(first, last).to_owned())
        } else {
            None
        };
        Some(
            Mapping {
                start: start as usize,
                end: end as usize,
                permissions,
                offset: offset as usize,
                device,
                inode: inode as usize,
                path,
            },
        )
    }
}

} // verus!
