//! The records that the parser produces.

use vstd::prelude::*;

verus! {

/// Access rights of a mapping: read, write, execute, and whether it is
/// shared or private.
#[derive(Clone, Copy, Debug, PartialEq, Eq, Structural)]
pub struct Permissions {
    pub bits: u8,
}

impl Permissions {
    // The bit of each right, for `bits`.
    pub const X: u8 = 1;
    pub const W: u8 = 2;
    pub const R: u8 = 4;
    pub const S: u8 = 8;
    pub const P: u8 = 16;

    pub fn empty() -> (r: Permissions)
        ensures
            r.bits == 0,
    {
        Permissions { bits: 0 }
    }

    pub fn bits(&self) -> (r: u8)
        ensures
            r == self.bits,
    {
        self.bits
    }

    pub fn union(self, other: Permissions) -> (r: Permissions)
        ensures
            r.bits == self.bits | other.bits,
    {
        Permissions { bits: self.bits | other.bits }
    }

    pub fn contains(&self, other: Permissions) -> (r: bool)
        ensures
            r == (self.bits & other.bits == other.bits),
    {
        self.bits & other.bits == other.bits
    }
}

/// The per-region flags that `smaps` lists after `VmFlags:`.
#[derive(Clone, Copy, Debug, PartialEq, Eq, Structural)]
pub struct VmFlags {
    pub bits: u32,
}

impl VmFlags {
    // The bit of each flag, for `bits`.
    /// readable
    pub const RD: u32 = 1;
    /// writable
    pub const WR: u32 = 2;
    /// executable
    pub const EX: u32 = 4;
    /// shared
    pub const SH: u32 = 8;
    /// may read
    pub const MR: u32 = 16;
    /// may write
    pub const MW: u32 = 32;
    /// may execute
    pub const ME: u32 = 64;
    /// may share
    pub const MS: u32 = 128;
    /// stack segment grows down
    pub const GD: u32 = 256;
    /// pure PFN range
    pub const PF: u32 = 512;
    /// disabled write to the mapped file
    pub const DW: u32 = 1024;
    /// pages are locked in memory
    pub const LO: u32 = 2048;
    /// memory mapped I/O area
    pub const IO: u32 = 4096;
    /// sequential read advise provided
    pub const SR: u32 = 8192;
    /// random read advise provided
    pub const RR: u32 = 16384;
    /// do not copy area on fork
    pub const DC: u32 = 32768;
    /// do not expand area on remapping
    pub const DE: u32 = 65536;
    /// area is accountable
    pub const AC: u32 = 131072;
    /// swap space is not reserved for the area
    pub const NR: u32 = 262144;
    /// area uses huge tlb pages
    pub const HT: u32 = 524288;
    /// perform synchronous page faults
    pub const SF: u32 = 1048576;
    /// non-linear mapping
    pub const NL: u32 = 2097152;
    /// architecture specific flag
    pub const AR: u32 = 4194304;
    /// wipe on fork
    pub const WF: u32 = 8388608;
    /// do not include area into core dump
    pub const DD: u32 = 16777216;
    /// soft-dirty flag
    pub const SD: u32 = 33554432;
    /// mixed map area
    pub const MM: u32 = 67108864;
    /// huge page advise flag
    pub const HG: u32 = 134217728;
    /// no-huge page advise flag
    pub const NH: u32 = 268435456;
    /// mergeable advise flag
    pub const MG: u32 = 536870912;
    /// userfaultfd missing pages tracking
    pub const UM: u32 = 1073741824;
    /// userfaultfd wprotect pages tracking
    pub const UW: u32 = 2147483648;

    pub fn empty() -> (r: VmFlags)
        ensures
            r.bits == 0,
    {
        VmFlags { bits: 0 }
    }

    pub fn bits(&self) -> (r: u32)
        ensures
            r == self.bits,
    {
        self.bits
    }

    pub fn union(self, other: VmFlags) -> (r: VmFlags)
        ensures
            r.bits == self.bits | other.bits,
    {
        VmFlags { bits: self.bits | other.bits }
    }

    pub fn contains(&self, other: VmFlags) -> (r: bool)
        ensures
            r == (self.bits & other.bits == other.bits),
    {
        self.bits & other.bits == other.bits
    }
}

impl Default for VmFlags {
    fn default() -> (r: VmFlags)
        ensures
            r.bits == 0,
    {
        VmFlags { bits: 0 }
    }
}

/// The device that backs a mapping, as (major, minor).
#[derive(Clone, Copy, Debug, PartialEq, Eq, Structural)]
pub struct Device {
    pub major: u32,
    pub minor: u32,
}

/// One virtual memory region of a process, from one header line.
#[derive(Clone, Debug, PartialEq, Eq)]
pub struct Mapping {
    pub start: usize,
    pub end: usize,
    pub permissions: Permissions,
    pub offset: usize,
    pub device: Device,
    pub inode: usize,
    pub path: Option<String>,
}

/// A `Mapping` with its path as characters.
pub struct MappingView {
    pub start: usize,
    pub end: usize,
    pub permissions: Permissions,
    pub offset: usize,
    pub device: Device,
    pub inode: usize,
    pub path: Option<Seq<char>>,
}

pub open spec fn path_view(p: Option<String>) -> Option<Seq<char>> {
    match p {
        Some(s) => Some(s@),
        None => None,
    }
}

impl View for Mapping {
    type V = MappingView;

    open spec fn view(&self) -> MappingView {
        MappingView {
            start: self.start,
            end: self.end,
            permissions: self.permissions,
            offset: self.offset,
            device: self.device,
            inode: self.inode,
            path: path_view(self.path),
        }
    }
}

/// The detail statistics that follow a header line, in bytes.
#[derive(Clone, Copy, Debug, PartialEq, Eq, Structural)]
pub struct Usage {
    pub size: usize,
    pub kernel_page_size: usize,
    pub mmu_page_size: usize,
    pub rss: usize,
    pub pss: usize,
    pub pss_dirty: usize,
    pub shared_clean: usize,
    pub shared_dirty: usize,
    pub private_clean: usize,
    pub private_dirty: usize,
    pub referenced: usize,
    pub anonymous: usize,
    pub ksm: usize,
    pub lazy_free: usize,
    pub anon_huge_pages: usize,
    pub shmem_huge_pages: usize,
    pub shmem_pmd_mapped: usize,
    pub file_pmd_mapped: usize,
    pub shared_hugetlb: usize,
    pub private_hugetlb: usize,
    pub swap: usize,
    pub swap_pss: usize,
    pub locked: usize,
    pub thp_eligible: bool,
    pub protection_key: Option<usize>,
    pub vm_flags: VmFlags,
}

/// The usage of a block without detail lines: every count zero, no flags.
pub open spec fn zero_usage() -> Usage {
    Usage {
        size: 0,
        kernel_page_size: 0,
        mmu_page_size: 0,
        rss: 0,
        pss: 0,
        pss_dirty: 0,
        shared_clean: 0,
        shared_dirty: 0,
        private_clean: 0,
        private_dirty: 0,
        referenced: 0,
        anonymous: 0,
        ksm: 0,
        lazy_free: 0,
        anon_huge_pages: 0,
        shmem_huge_pages: 0,
        shmem_pmd_mapped: 0,
        file_pmd_mapped: 0,
        shared_hugetlb: 0,
        private_hugetlb: 0,
        swap: 0,
        swap_pss: 0,
        locked: 0,
        thp_eligible: false,
        protection_key: None,
        vm_flags: VmFlags { bits: 0 },
    }
}

impl Default for Usage {
    fn default() -> (r: Usage)
        ensures
            r == zero_usage(),
    {
        Usage {
            size: 0,
            kernel_page_size: 0,
            mmu_page_size: 0,
            rss: 0,
            pss: 0,
            pss_dirty: 0,
            shared_clean: 0,
            shared_dirty: 0,
            private_clean: 0,
            private_dirty: 0,
            referenced: 0,
            anonymous: 0,
            ksm: 0,
            lazy_free: 0,
            anon_huge_pages: 0,
            shmem_huge_pages: 0,
            shmem_pmd_mapped: 0,
            file_pmd_mapped: 0,
            shared_hugetlb: 0,
            private_hugetlb: 0,
            swap: 0,
            swap_pss: 0,
            locked: 0,
            thp_eligible: false,
            protection_key: None,
            vm_flags: VmFlags { bits: 0 },
        }
    }
}

/// Why a parse stopped.
#[derive(Clone, Debug, PartialEq, Eq)]
pub enum Error {
    /// A line in header position is not a mapping header.
    MalformedHeader,
    /// A detail line does not follow the `KEY: NUMBER [UNIT]` grammar.
    InvalidUsage,
    /// A detail line names a key outside the known set.
    UnknownKey(String),
    /// A detail line has a unit other than kB, mB, gB or tB.
    UnknownUnit(String),
    /// A `VmFlags` line holds a mnemonic outside the known set.
    UnknownFlag(String),
}

/// An `Error` with its text as characters.
pub enum Fault {
    MalformedHeader,
    InvalidUsage,
    UnknownKey(Seq<char>),
    UnknownUnit(Seq<char>),
    UnknownFlag(Seq<char>),
}

impl View for Error {
    type V = Fault;

    open spec fn view(&self) -> Fault {
        match self {
            Error::MalformedHeader => Fault::MalformedHeader,
            Error::InvalidUsage => Fault::InvalidUsage,
            Error::UnknownKey(s) => Fault::UnknownKey(s@),
            Error::UnknownUnit(s) => Fault::UnknownUnit(s@),
            Error::UnknownFlag(s) => Fault::UnknownFlag(s@),
        }
    }
}

} // verus!
