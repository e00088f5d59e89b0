//! The decoded form of one line of a maps file.
use vstd::prelude::*;

verus! {

/// The half-open address range `[begin, end)` of a mapping.
#[derive(Clone, Copy, Debug, PartialEq, Eq, Structural)]
pub struct AddressRange {
    pub begin: u64,
    pub end: u64,
}

/// The permission bits of a mapping; `shared` and `private` come from one letter.
#[derive(Clone, Copy, Debug, PartialEq, Eq, Structural)]
pub struct Permissions {
    pub readable: bool,
    pub writable: bool,
    pub executable: bool,
    pub shared: bool,
    pub private: bool,
}

/// The major and minor numbers of the device that backs a mapping.
#[derive(Clone, Copy, Debug, PartialEq, Eq, Structural)]
pub struct Device {
    pub major: u64,
    pub minor: u64,
}

/// What a mapping is backed by.
#[derive(Clone, Debug, PartialEq, Eq)]
pub enum Pathname {
    Stack,
    Vdso,
    Vvar,
    Vsyscall,
    Heap,
    /// A bracketed tag other than the five above, kept as written.
    OtherPseudo(String),
    /// A filesystem path, kept as written.
    Path(String),
    /// No pathname: an anonymous mapping.
    Mmap,
}

/// The mathematical form of a `Pathname`.
pub enum PathnameView {
    Stack,
    Vdso,
    Vvar,
    Vsyscall,
    Heap,
    OtherPseudo(Seq<char>),
    Path(Seq<char>),
    Mmap,
}

impl View for Pathname {
    type V = PathnameView;

    open spec fn view(&self) -> PathnameView {
        match self {
            Pathname::Stack => PathnameView::Stack,
            Pathname::Vdso => PathnameView::Vdso,
            Pathname::Vvar => PathnameView::Vvar,
            Pathname::Vsyscall => PathnameView::Vsyscall,
            Pathname::Heap => PathnameView::Heap,
            Pathname::OtherPseudo(s) => PathnameView::OtherPseudo(s@),
            Pathname::Path(s) => PathnameView::Path(s@),
            Pathname::Mmap => PathnameView::Mmap,
        }
    }
}

/// One mapping of a process's address space.
#[derive(Clone, Debug, PartialEq, Eq)]
pub struct MemoryMap {
    pub address_range: AddressRange,
    pub permissions: Permissions,
    pub offset: u64,
    pub device: Device,
    pub inode: u64,
    pub pathname: Pathname,
}

/// The mathematical form of a `MemoryMap`.
pub struct MemoryMapView {
    pub address_range: AddressRange,
    pub permissions: Permissions,
    pub offset: u64,
    pub device: Device,
    pub inode: u64,
    pub pathname: PathnameView,
}

impl View for MemoryMap {
    type V = MemoryMapView;

    open spec fn view(&self) -> MemoryMapView {
        MemoryMapView {
            address_range: self.address_range,
            permissions: self.permissions,
            offset: self.offset,
            device: self.device,
            inode: self.inode,
            pathname: self.pathname@,
        }
    }
}

/// The text that a pathname is shown as; `None` for an anonymous mapping.
pub open spec fn pathname_text(p: PathnameView) -> Option<Seq<char>> {
    match p {
        PathnameView::Stack => Some(seq!['[', 's', 't', 'a', 'c', 'k', ']']),
        PathnameView::Vdso => Some(seq!['[', 'v', 'd', 's', 'o', ']']),
        PathnameView::Vvar => Some(seq!['[', 'v', 'v', 'a', 'r', ']']),
        PathnameView::Vsyscall => Some(seq!['[', 'v', 's', 'y', 's', 'c', 'a', 'l', 'l', ']']),
        PathnameView::Heap => Some(seq!['[', 'h', 'e', 'a', 'p', ']']),
        PathnameView::OtherPseudo(s) => Some(s),
        PathnameView::Path(s) => Some(s),
        PathnameView::Mmap => None,
    }
}

impl MemoryMap {
    /// The first address of the mapping.
    pub fn begin_address(&self) -> (r: u64)
        ensures
            r == self.address_range.begin,
    {
        self.address_range.begin
    }

    /// The address just past the mapping.
    pub fn end_address(&self) -> (r: u64)
        ensures
            r == self.address_range.end,
    {
        self.address_range.end
    }

    /// Whether the mapping may be read.
    pub fn is_readable(&self) -> (r: bool)
        ensures
            r == self.permissions.readable,
    {
        self.permissions.readable
    }

    /// Whether the mapping may be written.
    pub fn is_writable(&self) -> (r: bool)
        ensures
            r == self.permissions.writable,
    {
        self.permissions.writable
    }

    /// Whether the mapping may be executed.
    pub fn is_executable(&self) -> (r: bool)
        ensures
            r == self.permissions.executable,
    {
        self.permissions.executable
    }

    /// Whether the mapping is shared with other processes.
    pub fn is_shared(&self) -> (r: bool)
        ensures
            r == self.permissions.shared,
    {
        self.permissions.shared
    }

    /// Whether the mapping is private (copy-on-write).
    pub fn is_private(&self) -> (r: bool)
        ensures
            r == self.permissions.private,
    {
        self.permissions.private
    }

    /// The offset into the backing object at which the mapping starts.
    pub fn offset(&self) -> (r: u64)
        ensures
            r == self.offset,
    {
        self.offset
    }

    /// The `(major, minor)` numbers of the backing device.
    pub fn device(&self) -> (r: (u64, u64))
        ensures
            r == (self.device.major, self.device.minor),
    {
        (self.device.major, self.device.minor)
    }

    /// The inode of the backing object, 0 where there is none.
    pub fn inode(&self) -> (r: u64)
        ensures
            r == self.inode,
    {
        self.inode
    }

    /// The pathname as text: the bracketed tag for a pseudo-path, the path as
    /// written, or `None` for an anonymous mapping.
    pub fn pathname(&self) -> (r: Option<String>)
        ensures
            r matches Some(s) ==> pathname_text(self.pathname@) == Some(s@),
            r is None ==> pathname_text(self.pathname@) is None,
    {
        proof {
            reveal_strlit("[stack]");
            reveal_strlit("[vdso]");
            reveal_strlit("[vvar]");
            reveal_strlit("[vsyscall]");
            reveal_strlit("[heap]");
        }
        match &self.pathname {
            Pathname::Stack => Some("[stack]".to_owned()),
            Pathname::Vdso => Some("[vdso]".to_owned()),
            Pathname::Vvar => Some("[vvar]".to_owned()),
            Pathname::Vsyscall => Some("[vsyscall]".to_owned()),
            Pathname::Heap => Some("[heap]".to_owned()),
            Pathname::OtherPseudo(p) => Some(p.clone()),
            Pathname::Path(p) => Some(p.clone()),
            Pathname::Mmap => None,
        }
    }

    /// Whether `addr` lies in `[begin, end)`.
    pub fn contains(&self, addr: u64) -> (r: bool)
        ensures
            r == (self.address_range.begin <= addr && addr < self.address_range.end),
    {
        addr >= self.address_range.begin && addr < self.address_range.end
    }
}

} // verus!
