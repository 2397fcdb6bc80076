//! Verified core of the live-migration wire protocol, the dirty-memory
//! bookkeeping that feeds it, and the CPU-profile computations that decide
//! which CPUID and MSR values a migratable guest gets to see.
pub mod error;
pub mod protocol;
pub mod memory_range_table;
pub mod cpuid_definitions;
pub mod hypervisor_data;
pub mod msr_adjustments;
pub mod cpu_profile_generation;
pub mod msr_definitions;
pub mod intel_architectural_msrs;
pub mod msr_profile_generation;
pub mod dirty_log_worker;
