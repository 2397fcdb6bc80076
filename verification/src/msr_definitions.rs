//! Definitions of the values of model-specific registers, of the policy that
//! CPU profiles apply to each of them, and of the MSRs that KVM defines.
use crate::cpuid_definitions::{
    covers_bit, first_bit_match, first_parameters_match, parameters_match, CpuidDefinitions, Parameters, ProfilePolicy as CpuidProfilePolicy,
};
use crate::msr_adjustments::RegisterAddress;
use vstd::prelude::*;

verus! {

/// Describes a policy for how a range of bits of an MSR value should be
/// considered when building a CPU profile.
#[derive(Debug, Copy, Clone, PartialEq, Eq, Structural)]
pub enum ProfilePolicy {
    /// The MSR must not be available to guests at all; applies to all 64
    /// bits of the MSR.
    Deny,
    /// Store the host's bits in the CPU profile.
    Inherit,
    /// Keep whatever the host has when the profile is applied.
    Passthrough,
    /// Set the given hardcoded value in the CPU profile.
    Static(u64),
}

/// A description of a range of bits in an MSR value.
#[derive(Clone, Copy, Debug)]
pub struct ValueDefinition {
    /// A short name for the value.
    pub short: &'static str,
    /// A description of the value.
    pub description: &'static str,
    /// The range of bits (first and last, both included) that hold the value.
    pub bits_range: (u8, u8),
    /// The policy for this value when building CPU profiles.
    pub policy: ProfilePolicy,
}

/// Describes the values within one MSR.
pub struct ValueDefinitions(&'static [ValueDefinition]);

impl View for ValueDefinitions {
    type V = Seq<ValueDefinition>;

    closed spec fn view(&self) -> Seq<ValueDefinition> {
        self.0@
    }
}

impl ValueDefinitions {
    /// Constructor permitting at most 64 entries, one per bit of an MSR.
    pub fn new(definitions: &'static [ValueDefinition]) -> (r: Self)
        requires
            definitions@.len() <= 64,
        ensures
            r@ == definitions@,
    {
        ValueDefinitions(definitions)
    }

    pub fn as_slice(&self) -> (r: &'static [ValueDefinition])
        ensures
            r@ == self@,
    {
        self.0
    }
}

/// Describes the values of several MSRs, each given by its register address.
pub struct MsrDefinitions<const N: usize>([(RegisterAddress, ValueDefinitions); N]);

impl<const N: usize> View for MsrDefinitions<N> {
    type V = Seq<(RegisterAddress, ValueDefinitions)>;

    closed spec fn view(&self) -> Seq<(RegisterAddress, ValueDefinitions)> {
        self.0@
    }
}

impl<const N: usize> MsrDefinitions<N> {
    /// Definitions made of the given pairs of register address and values.
    pub fn new(definitions: [(RegisterAddress, ValueDefinitions); N]) -> (r: Self)
        ensures
            r@ == definitions@,
    {
        MsrDefinitions(definitions)
    }

    pub fn as_slice(&self) -> (r: &[(RegisterAddress, ValueDefinitions); N])
        ensures
            r@ == self@,
    {
        &self.0
    }
}

pub const MSR_KVM_WALL_CLOCK_NEW: u32 = 0x4b564d00;
pub const MSR_KVM_SYSTEM_TIME_NEW: u32 = 0x4b564d01;
pub const MSR_KVM_WALL_CLOCK: u32 = 0x11;
pub const MSR_KVM_SYSTEM_TIME: u32 = 0x12;
pub const MSR_KVM_ASYNC_PF_EN: u32 = 0x4b564d02;
pub const MSR_KVM_STEAL_TIME: u32 = 0x4b564d03;
pub const MSR_KVM_EOI_EN: u32 = 0x4b564d04;
pub const MSR_KVM_POLL_CONTROL: u32 = 0x4b564d05;
pub const MSR_KVM_ASYNC_PF_INT: u32 = 0x4b564d06;
pub const MSR_KVM_ASYNC_PF_ACK: u32 = 0x4b564d07;
pub const MSR_KVM_MIGRATION_CONTROL: u32 = 0x4b564d08;

/// KVM defined MSRs that CPU profiles may include in their permitted MSRs.
pub fn profile_permitted_kvm_msrs() -> (r: Vec<u32>)
    ensures
        r@ == seq![
            MSR_KVM_WALL_CLOCK_NEW,
            MSR_KVM_SYSTEM_TIME_NEW,
            MSR_KVM_ASYNC_PF_EN,
            MSR_KVM_STEAL_TIME,
            MSR_KVM_EOI_EN,
            MSR_KVM_POLL_CONTROL,
            MSR_KVM_ASYNC_PF_INT,
            MSR_KVM_ASYNC_PF_ACK,
            MSR_KVM_MIGRATION_CONTROL,
        ],
{
    let r = vec![
        MSR_KVM_WALL_CLOCK_NEW,
        MSR_KVM_SYSTEM_TIME_NEW,
        MSR_KVM_ASYNC_PF_EN,
        MSR_KVM_STEAL_TIME,
        MSR_KVM_EOI_EN,
        MSR_KVM_POLL_CONTROL,
        MSR_KVM_ASYNC_PF_INT,
        MSR_KVM_ASYNC_PF_ACK,
        MSR_KVM_MIGRATION_CONTROL,
    ];
    assert(r@ =~= seq![
        MSR_KVM_WALL_CLOCK_NEW,
        MSR_KVM_SYSTEM_TIME_NEW,
        MSR_KVM_ASYNC_PF_EN,
        MSR_KVM_STEAL_TIME,
        MSR_KVM_EOI_EN,
        MSR_KVM_POLL_CONTROL,
        MSR_KVM_ASYNC_PF_INT,
        MSR_KVM_ASYNC_PF_ACK,
        MSR_KVM_MIGRATION_CONTROL,
    ]);
    r
}

/// KVM defined MSRs that CPU profiles should not include in their permitted
/// MSRs.
pub fn profile_unpermitted_kvm_msrs() -> (r: Vec<u32>)
    ensures
        r@ == seq![MSR_KVM_WALL_CLOCK, MSR_KVM_SYSTEM_TIME],
{
    let r = vec![MSR_KVM_WALL_CLOCK, MSR_KVM_SYSTEM_TIME];
    assert(r@ =~= seq![MSR_KVM_WALL_CLOCK, MSR_KVM_SYSTEM_TIME]);
    r
}

/// The CPUID feature `BIT` in the register that `params` describes is
/// defined, and its definition does not hard-code it to 0 for CPU profiles.
pub open spec fn cpuid_feature_not_denied(
    defs: Seq<(Parameters, crate::cpuid_definitions::ValueDefinitions)>,
    params: Parameters,
    bit: u8,
) -> bool {
    exists|i: int, j: int|
        #[trigger] first_parameters_match(defs, params, i) && #[trigger] first_bit_match(
            defs[i].1@,
            bit,
            j,
        ) && defs[i].1@[j].policy != CpuidProfilePolicy::Static(0)
}

/// Checks that the given `BIT` in the CPUID output register specified by
/// `params` is defined in `definitions` and not declared to be overwritten by
/// 0 for CPU profiles.
///
/// The check is made when the crate is verified: a caller must show that the
/// feature is not denied, and a call on a missing or denied feature is
/// refused.
pub fn assert_not_denied_cpuid_feature<const N: usize, const BIT: u8>(
    definitions: &CpuidDefinitions<N>,
    params: &Parameters,
)
    requires
        cpuid_feature_not_denied(definitions@, *params, BIT),
{
    let ghost (gi, gj) = choose|i: int, j: int|
        #[trigger] first_parameters_match(definitions@, *params, i) && #[trigger] first_bit_match(
            definitions@[i].1@,
            BIT,
            j,
        ) && definitions@[i].1@[j].policy != CpuidProfilePolicy::Static(0);
    match definitions.get(params) {
        Some(defs) => {
            let def = defs.find_bit::<BIT>();
            proof {
                let i = choose|i: int| #[trigger] first_parameters_match(definitions@, *params, i) && *defs == definitions@[i].1;
                assert(i == gi);
                assert(first_bit_match(defs@, BIT, gj));
                match def {
                    Some(d) => {
                        let j = choose|j: int| #[trigger] first_bit_match(defs@, BIT, j) && *d == defs@[j];
                        assert(j == gj);
                        assert(d.policy != CpuidProfilePolicy::Static(0));
                    },
                    None => {
                        assert(!covers_bit(defs@[gj], BIT));
                    },
                }
            }
        },
        None => {
            proof {
                assert(!parameters_match(definitions@[gi].0, *params));
            }
        },
    }
}

} // verus!
