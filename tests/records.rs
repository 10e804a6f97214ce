use smaps::usage::apply_line;
use smaps::{read, read_filtered, Device, Error, Mapping, Parser, Permissions, Usage, VmFlags};

fn lines(v: &[&str]) -> Vec<String> {
    v.iter().map(|l| l.to_string()).collect()
}

const CAT: &str = "00400000-00452000 r-xp 00000000 08:02 173521 /usr/bin/cat";

#[test]
fn header_scenario() {
    let m = Mapping::parse(CAT).unwrap();
    assert_eq!(m.start, 0x00400000);
    assert_eq!(m.end, 0x00452000);
    assert_eq!(
        m.permissions,
        Permissions { bits: Permissions::R | Permissions::X | Permissions::P }
    );
    assert_eq!(m.offset, 0);
    assert_eq!(m.device, Device { major: 8, minor: 2 });
    assert_eq!(m.inode, 173521);
    assert_eq!(m.path.as_deref(), Some("/usr/bin/cat"));
}

#[test]
fn header_round_trips_fields() {
    let m = Mapping::parse("7fff1234abcd-7fff1234f000 rw-s 0001a000 fd:1F 42 [heap]").unwrap();
    assert_eq!(m.start, 0x7fff1234abcd);
    assert_eq!(m.end, 0x7fff1234f000);
    assert_eq!(
        m.permissions,
        Permissions { bits: Permissions::R | Permissions::W | Permissions::S }
    );
    assert_eq!(m.offset, 0x1a000);
    assert_eq!(m.device, Device { major: 0xfd, minor: 0x1f });
    assert_eq!(m.inode, 42);
    assert_eq!(m.path.as_deref(), Some("[heap]"));
}

#[test]
fn header_without_path() {
    let m = Mapping::parse("7f00-7f10 ---p 00000000 00:00 0").unwrap();
    assert_eq!(m.permissions, Permissions { bits: Permissions::P });
    assert_eq!(m.path, None);
}

#[test]
fn header_path_keeps_rest_of_line() {
    let m = Mapping::parse("1000-2000 r--p 00000000 08:02 7   /tmp/a file (deleted)  ").unwrap();
    assert_eq!(m.path.as_deref(), Some("/tmp/a file (deleted)"));
}

#[test]
fn header_rejects_malformed_fields() {
    assert!(Mapping::parse("").is_none());
    assert!(Mapping::parse("1000-2000 r--p 00000000 08:02").is_none());
    assert!(Mapping::parse("10002000 r--p 00000000 08:02 7").is_none());
    assert!(Mapping::parse("1000-20g0 r--p 00000000 08:02 7").is_none());
    assert!(Mapping::parse("+1000-2000 r--p 00000000 08:02 7").is_none());
    assert!(Mapping::parse("1000-2000 r--p 0x000000 08:02 7").is_none());
    assert!(Mapping::parse("1000-2000 r--p 00000000 0802 7").is_none());
    assert!(Mapping::parse("1000-2000 r--p 00000000 08:02:01 7").is_none());
    assert!(Mapping::parse("1000-2000 r--p 00000000 108:100000000 7").is_none());
    assert!(Mapping::parse("1000-2000 r--p 00000000 08:02 7a").is_none());
    assert!(Mapping::parse("1000-2000 r--p 00000000 08:02 -7").is_none());
    assert!(Mapping::parse("1000-10000000000000000 r--p 00000000 08:02 7").is_none());
    assert!(Mapping::parse("1000-2000 r--x 00000000 08:02 7").is_none());
    assert!(Mapping::parse("1000-2000 r--ps 00000000 08:02 7").is_none());
    assert!(Mapping::parse("1000-2000 rwxX 00000000 08:02 7").is_none());
}

#[test]
fn size_line_scenario() {
    let mut u = Usage::default();
    assert!(matches!(apply_line(&mut u, "Size: 72 kB"), Ok(true)));
    assert_eq!(u.size, 72 << 10);
    assert_eq!(u.size, 73728);
}

#[test]
fn vm_flags_scenario() {
    let mut u = Usage::default();
    assert!(matches!(apply_line(&mut u, "VmFlags: rd ex mr me"), Ok(true)));
    let expected = VmFlags::RD | VmFlags::EX | VmFlags::MR | VmFlags::ME;
    assert_eq!(u.vm_flags, VmFlags { bits: expected });
    assert!(u.vm_flags.contains(VmFlags { bits: VmFlags::EX }));
    assert!(!u.vm_flags.contains(VmFlags { bits: VmFlags::WR }));
}

#[test]
fn vm_flags_empty_and_every_mnemonic() {
    let mut u = Usage::default();
    assert!(matches!(apply_line(&mut u, "VmFlags:"), Ok(true)));
    assert_eq!(u.vm_flags.bits(), 0);
    let all = "VmFlags: rd wr ex sh mr mw me ms gd pf dw lo io sr rr dc de ac nr ht sf nl ar wf dd sd mm hg nh mg um uw";
    assert!(matches!(apply_line(&mut u, all), Ok(true)));
    assert_eq!(u.vm_flags.bits(), u32::MAX);
}

#[test]
fn units_scale_by_powers_of_two() {
    let mut u = Usage::default();
    assert!(matches!(apply_line(&mut u, "Rss: 3 mB"), Ok(true)));
    assert_eq!(u.rss, 3 << 20);
    assert!(matches!(apply_line(&mut u, "Pss: 5 gB"), Ok(true)));
    assert_eq!(u.pss, 5 << 30);
    assert!(matches!(apply_line(&mut u, "Swap: 2 tB"), Ok(true)));
    assert_eq!(u.swap, 2 << 40);
    assert!(matches!(apply_line(&mut u, "KernelPageSize: 4096"), Ok(true)));
    assert_eq!(u.kernel_page_size, 4096);
}

#[test]
fn derived_usage_fields() {
    let mut u = Usage::default();
    assert!(matches!(apply_line(&mut u, "THPeligible:    1"), Ok(true)));
    assert!(u.thp_eligible);
    assert!(matches!(apply_line(&mut u, "THPeligible: 0"), Ok(true)));
    assert!(!u.thp_eligible);
    assert!(matches!(apply_line(&mut u, "ProtectionKey:  0"), Ok(true)));
    assert_eq!(u.protection_key, Some(0));
}

#[test]
fn malformed_usage_lines() {
    let mut u = Usage::default();
    assert!(matches!(apply_line(&mut u, "Size:"), Ok(false)));
    assert!(matches!(apply_line(&mut u, "Size: 72 kB extra"), Ok(false)));
    assert!(matches!(apply_line(&mut u, "Size: 7x2 kB"), Ok(false)));
    assert!(matches!(apply_line(&mut u, "Size: 99999999999999 tB"), Ok(false)));
    assert_eq!(u, Usage::default());
}

#[test]
fn unknown_unit_key_and_flag_are_errors() {
    let mut u = Usage::default();
    match apply_line(&mut u, "Size: 72 KB") {
        Err(Error::UnknownUnit(t)) => assert_eq!(t, "KB"),
        other => panic!("unexpected {:?}", other),
    }
    match apply_line(&mut u, "Bogus: 72 kB") {
        Err(Error::UnknownKey(t)) => assert_eq!(t, "Bogus"),
        other => panic!("unexpected {:?}", other),
    }
    match apply_line(&mut u, "VmFlags: rd zz ex") {
        Err(Error::UnknownFlag(t)) => assert_eq!(t, "zz"),
        other => panic!("unexpected {:?}", other),
    }
}

#[test]
fn header_then_header_gives_default_usage() {
    let input = lines(&[CAT, "00652000-00653000 r--p 00052000 08:02 173521 /usr/bin/cat"]);
    let p = Parser::new(input.clone());
    let (p, m) = p.next();
    assert_eq!(m.unwrap().start, 0x400000);
    let (p, u) = p.next().unwrap();
    assert_eq!(u, Some(Usage::default()));
    let (p, m) = p.next();
    assert_eq!(m.unwrap().start, 0x652000);
    let (p, u) = p.next().unwrap();
    assert_eq!(u, Some(Usage::default()));
    assert!(p.is_done());
    let all = read(&input).unwrap();
    assert_eq!(all.len(), 2);
    assert_eq!(all[0].1, Usage::default());
}

#[test]
fn malformed_permissions_consume_one_line() {
    let input = lines(&["00400000-00452000 rwxX 00000000 08:02 173521 /usr/bin/cat", "Size: 4 kB"]);
    let (p, m) = Parser::new(input.clone()).next();
    assert!(m.is_none());
    let (p, u) = p.next().unwrap();
    assert_eq!(u.unwrap().size, 4096);
    assert!(p.is_done());
    assert!(matches!(read(&input), Err(Error::MalformedHeader)));
}

fn sample() -> Vec<String> {
    lines(&[
        CAT,
        "Size:                328 kB",
        "Rss:                 256 kB",
        "Pss:                 128 kB",
        "Shared_Clean:        256 kB",
        "Referenced:          256 kB",
        "Anonymous:             0 kB",
        "THPeligible:           0",
        "VmFlags: rd ex mr mw me dw sd",
        "7ffd4c1a2000-7ffd4c1c3000 rw-p 00000000 00:00 0                          [stack]",
        "Size:                132 kB",
        "Private_Dirty:        16 kB",
        "Locked:                0 kB",
        "VmFlags: rd wr mr mw me gd ac",
        "7ffd4c1f0000-7ffd4c1f2000 r-xp 00000000 00:00 0",
    ])
}

#[test]
fn bulk_reads_every_record_in_order() {
    let all = read(&sample()).unwrap();
    assert_eq!(all.len(), 3);
    assert_eq!(all[0].0.path.as_deref(), Some("/usr/bin/cat"));
    assert_eq!(all[0].1.size, 328 * 1024);
    assert_eq!(all[0].1.shared_clean, 256 * 1024);
    assert_eq!(
        all[0].1.vm_flags.bits(),
        VmFlags::RD | VmFlags::EX | VmFlags::MR | VmFlags::MW | VmFlags::ME | VmFlags::DW | VmFlags::SD
    );
    assert_eq!(all[1].0.path.as_deref(), Some("[stack]"));
    assert_eq!(all[1].1.private_dirty, 16 * 1024);
    assert_eq!(all[2].0.path, None);
    assert_eq!(all[2].1, Usage::default());
}

#[test]
fn incremental_matches_bulk_on_sample() {
    let input = sample();
    let bulk = read(&input).unwrap();
    let mut got = Vec::new();
    let mut p = Parser::new(input);
    loop {
        let (pu, m) = p.next();
        let Some(m) = m else { break };
        let (pm, u) = pu.next().unwrap();
        got.push((m, u.unwrap()));
        p = pm;
    }
    assert_eq!(got, bulk);
}

#[test]
fn filtered_block_with_unknown_key_does_not_fail() {
    let mut input = sample();
    input.insert(10, "NotAKey:   12 kB".to_string());
    input.insert(11, "garbage line".to_string());
    assert!(matches!(read(&input), Err(Error::UnknownKey(_))));
    let kept = read_filtered(&input, |m: &Mapping| m.path.as_deref() != Some("[stack]")).unwrap();
    assert_eq!(kept.len(), 2);
    assert_eq!(kept[0].0.path.as_deref(), Some("/usr/bin/cat"));
    assert_eq!(kept[1].0.start, 0x7ffd4c1f0000);
}

#[test]
fn skip_passes_over_a_block() {
    let (p, _) = Parser::new(sample()).next();
    let p = p.skip();
    let (_, m) = p.next();
    assert_eq!(m.unwrap().path.as_deref(), Some("[stack]"));
}

#[test]
fn invalid_block_is_none_and_stream_stays_in_step() {
    let input = lines(&[CAT, "Size: 4 kB", "Rss: x kB", "Pss: 4 kB", "1000-2000 r--p 00000000 08:02 7"]);
    let (p, _) = Parser::new(input.clone()).next();
    let (p, u) = p.next().unwrap();
    assert_eq!(u, None);
    let (_, m) = p.next();
    assert_eq!(m.unwrap().start, 0x1000);
    assert!(matches!(read(&input), Err(Error::InvalidUsage)));
}

#[test]
fn empty_listing() {
    let input: Vec<String> = Vec::new();
    assert!(read(&input).unwrap().is_empty());
    let (p, m) = Parser::new(input).next();
    assert!(m.is_none());
    let (p, u) = p.next().unwrap();
    assert_eq!(u, Some(Usage::default()));
    assert!(p.is_done());
}

#[test]
fn permission_and_flag_sets() {
    let rx = Permissions { bits: Permissions::R }.union(Permissions { bits: Permissions::X });
    assert_eq!(rx.bits(), 5);
    assert!(rx.contains(Permissions { bits: Permissions::R }));
    assert!(!rx.contains(Permissions { bits: Permissions::W }));
    assert_eq!(Permissions::empty().bits(), 0);
    let f = VmFlags::empty().union(VmFlags { bits: VmFlags::UW });
    assert_eq!(f.bits(), 1 << 31);
    assert_eq!(VmFlags::default(), VmFlags::empty());
}

#[test]
fn shared_quad_and_decimal_inode() {
    let m = Mapping::parse("0-1 rwxs FFFF 0:0 18446744073709551615").unwrap();
    assert_eq!(m.start, 0);
    assert_eq!(m.end, 1);
    assert_eq!(
        m.permissions,
        Permissions { bits: Permissions::R | Permissions::W | Permissions::X | Permissions::S }
    );
    assert_eq!(m.offset, 0xffff);
    assert_eq!(m.inode, usize::MAX);
    assert!(Mapping::parse("0-1 rwxs FFFF 0:0 18446744073709551616").is_none());
}
