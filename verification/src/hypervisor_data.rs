//! Plain-value forms of what a hypervisor reports about the host CPU.
use vstd::prelude::*;

verus! {

/// One model-specific register and its value.
#[derive(Debug, Copy, Clone, Default, PartialEq, Eq, Structural)]
pub struct MsrEntry {
    pub index: u32,
    pub data: u64,
}

/// The output of the CPUID instruction for one leaf (`function`) and
/// sub-leaf (`index`).
#[derive(Debug, Copy, Clone, Default, PartialEq, Eq, Structural)]
pub struct CpuIdEntry {
    pub function: u32,
    pub index: u32,
    pub flags: u32,
    pub eax: u32,
    pub ebx: u32,
    pub ecx: u32,
    pub edx: u32,
}

/// The vendor of a CPU.
#[derive(Debug, Copy, Clone, Default, PartialEq, Eq, Structural)]
pub enum CpuVendor {
    #[default]
    Unknown,
    Intel,
    AMD,
}

/// The kind of hypervisor.
#[derive(Debug, Copy, Clone, PartialEq, Eq, Structural)]
pub enum HypervisorType {
    Kvm,
    Mshv,
}

} // verus!
