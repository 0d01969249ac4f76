//! Target triples of the LLVM back end.
use vstd::prelude::*;

verus! {

/// Enum for the architecture in a target triple
/// (Not all possible architectures listed, will be in the future)
#[derive(Debug, Clone, Copy, PartialEq, Eq, Structural)]
pub enum Architecture {
    X86_64,
    I686,
    Aarch64,
    Riscv64gc,
    Thumbv7em,
}

/// Enum for the vendor in a target triple
#[derive(Debug, Clone, Copy, PartialEq, Eq, Structural)]
pub enum Vendor {
    Unknown,
    NoneGiven,
}

/// Enum for the operating system in a target triple
#[derive(Debug, Clone, Copy, PartialEq, Eq, Structural)]
pub enum OperatingSystem {
    NoneGiven,
    Linux,
    Elf,
}

/// Struct containing a target triple
#[derive(Debug, Clone, Copy)]
pub struct TargetTriple {
    arch: Architecture,
    vendor: Vendor,
    os: OperatingSystem,
}

/// The name of an architecture, in lower case.
pub open spec fn architecture_text(a: Architecture) -> Seq<char> {
    match a {
        Architecture::X86_64 => "x86_64"@,
        Architecture::I686 => "i686"@,
        Architecture::Aarch64 => "aarch64"@,
        Architecture::Riscv64gc => "riscv64gc"@,
        Architecture::Thumbv7em => "thumbv7em"@,
    }
}

/// The name of a vendor, in lower case.
pub open spec fn vendor_text(v: Vendor) -> Seq<char> {
    match v {
        Vendor::Unknown => "unknown"@,
        Vendor::NoneGiven => "none"@,
    }
}

/// The name of an operating system, in lower case.
pub open spec fn os_text(o: OperatingSystem) -> Seq<char> {
    match o {
        OperatingSystem::NoneGiven => "none"@,
        OperatingSystem::Linux => "linux"@,
        OperatingSystem::Elf => "elf"@,
    }
}

/// The text of a triple: architecture, vendor and system, in lower case,
/// separated by `-`.
pub open spec fn triple_text(arch: Architecture, vendor: Vendor, os: OperatingSystem) -> Seq<char> {
    architecture_text(arch) + "-"@ + vendor_text(vendor) + "-"@ + os_text(os)
}

impl TargetTriple {
    pub fn new(arch: Architecture, vendor: Vendor, os: OperatingSystem) -> (t: Self)
        ensures
            t.arch_v() == arch,
            t.vendor_v() == vendor,
            t.os_v() == os,
    {
        Self { arch, vendor, os }
    }

    /// The architecture.
    pub closed spec fn arch_v(&self) -> Architecture {
        self.arch
    }

    /// The vendor.
    pub closed spec fn vendor_v(&self) -> Vendor {
        self.vendor
    }

    /// The operating system.
    pub closed spec fn os_v(&self) -> OperatingSystem {
        self.os
    }

    /// The text of the triple, such as `x86_64-unknown-linux`.
    pub open spec fn text(&self) -> Seq<char> {
        triple_text(self.arch_v(), self.vendor_v(), self.os_v())
    }

    /// The text of the triple, such as `x86_64-unknown-linux`.
    pub fn render(&self) -> (s: String)
        ensures
            s@ == self.text(),
    {
        let mut s = String::new();
        match self.arch {
            Architecture::X86_64 => s.append("x86_64"),
            Architecture::I686 => s.append("i686"),
            Architecture::Aarch64 => s.append("aarch64"),
            Architecture::Riscv64gc => s.append("riscv64gc"),
            Architecture::Thumbv7em => s.append("thumbv7em"),
        }
        s.append("-");
        match self.vendor {
            Vendor::Unknown => s.append("unknown"),
            Vendor::NoneGiven => s.append("none"),
        }
        s.append("-");
        match self.os {
            OperatingSystem::NoneGiven => s.append("none"),
            OperatingSystem::Linux => s.append("linux"),
            OperatingSystem::Elf => s.append("elf"),
        }
        s
    }
}

} // verus!
