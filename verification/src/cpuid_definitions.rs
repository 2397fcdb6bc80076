//! Definitions of the values that the CPUID instruction reports, and of the
//! policy that CPU profiles apply to each of them.
use core::ops::RangeInclusive;
use vstd::prelude::*;

verus! {

/// `RangeInclusive::start` gives back the range's lower bound, the `start`
/// of its view, as the standard library's documentation describes it.
pub assume_specification<Idx>[ RangeInclusive::<Idx>::start ](r: &RangeInclusive<Idx>) -> (ret: &Idx)
    ensures
        *ret == r@.start,
;

/// `RangeInclusive::end` gives back the range's upper bound, the `end` of its
/// view, as the standard library's documentation describes it.
pub assume_specification<Idx>[ RangeInclusive::<Idx>::end ](r: &RangeInclusive<Idx>) -> (ret: &Idx)
    ensures
        *ret == r@.end,
;

/// `RangeInclusive::clone` copies a range. For a generic bound type nothing is
/// claimed of the copy: the bounds are cloned with the bound type's own
/// `clone`, whose result is left open here.
pub assume_specification<Idx: Clone>[ <RangeInclusive<Idx> as Clone>::clone ](
    r: &RangeInclusive<Idx>,
) -> RangeInclusive<Idx>
;

/// The output registers of the CPUID instruction.
#[derive(Debug, Copy, Clone, PartialEq, Eq, Structural)]
pub enum CpuidReg {
    EAX,
    EBX,
    ECX,
    EDX,
}

/// Parameters for inspecting CPUID definitions.
#[derive(Debug, Clone, PartialEq, Eq)]
pub struct Parameters {
    /// The leaf (EAX) parameter used with the CPUID instruction.
    pub leaf: u32,
    /// The sub-leaf (ECX) parameters used with the CPUID instruction.
    pub sub_leaf: RangeInclusive<u32>,
    /// The register to inspect, which gets filled by the CPUID instruction.
    pub register: CpuidReg,
}

/// Describes a policy for how the corresponding CPUID data should be
/// considered when building a CPU profile.
#[derive(Debug, Copy, Clone, PartialEq, Eq, Structural)]
pub enum ProfilePolicy {
    /// Store the corresponding data when building the CPU profile.
    Inherit,
    /// Ignore the corresponding data when building the CPU profile; it is
    /// taken from the host when the profile is applied.
    Passthrough,
    /// Set the given hardcoded value in the CPU profile.
    Static(u32),
}

/// A description of a range of bits in a register populated by the CPUID
/// instruction with specific parameters.
#[derive(Clone, Copy, Debug)]
pub struct ValueDefinition {
    /// A short name for the value obtainable through CPUID.
    pub short: &'static str,
    /// A description of the value obtainable through CPUID.
    pub description: &'static str,
    /// The range of bits (first and last, both included) in the output
    /// register that holds this feature or value.
    pub bits_range: (u8, u8),
    /// The policy for this value when building CPU profiles.
    pub policy: ProfilePolicy,
}

/// The bit ranges of `def` include bit `bit`.
pub open spec fn covers_bit(def: ValueDefinition, bit: u8) -> bool {
    def.bits_range.0 <= bit && bit <= def.bits_range.1
}

/// `values[i]` is the first definition whose bit range includes `bit`.
pub open spec fn first_bit_match(values: Seq<ValueDefinition>, bit: u8, i: int) -> bool {
    &&& 0 <= i < values.len()
    &&& covers_bit(values[i], bit)
    &&& forall|j: int| 0 <= j < i ==> !covers_bit(#[trigger] values[j], bit)
}

/// Describes values within a register populated by the CPUID instruction
/// with specific parameters.
pub struct ValueDefinitions(&'static [ValueDefinition]);

impl View for ValueDefinitions {
    type V = Seq<ValueDefinition>;

    closed spec fn view(&self) -> Seq<ValueDefinition> {
        self.0@
    }
}

impl ValueDefinitions {
    /// Constructor permitting at most 32 entries, one per bit of a register.
    pub fn new(cpuid_descriptions: &'static [ValueDefinition]) -> (r: Self)
        requires
            cpuid_descriptions@.len() <= 32,
        ensures
            r@ == cpuid_descriptions@,
    {
        ValueDefinitions(cpuid_descriptions)
    }

    /// Converts this into a slice representation. This is the only way to
    /// read values of this type.
    pub fn as_slice(&self) -> (r: &'static [ValueDefinition])
        ensures
            r@ == self@,
    {
        self.0
    }

    /// Looks up the first [`ValueDefinition`] whose bits range contains the
    /// given `BIT`.
    pub fn find_bit<const BIT: u8>(&self) -> (r: Option<&ValueDefinition>)
        ensures
            match r {
                Some(def) => exists|i: int| #[trigger] first_bit_match(self@, BIT, i) && *def == self@[i],
                None => forall|i: int| 0 <= i < self@.len() ==> !covers_bit(#[trigger] self@[i], BIT),
            },
    {
        let mut idx: usize = 0;
        let len = self.0.len();
        while idx < len
            invariant
                len == self@.len(),
                idx <= len,
                forall|j: int| 0 <= j < idx ==> !covers_bit(#[trigger] self@[j], BIT),
            decreases len - idx,
        {
            let def = &self.0[idx];
            let start = def.bits_range.0;
            let end = def.bits_range.1;
            if start <= BIT && end >= BIT {
                assert(first_bit_match(self@, BIT, idx as int));
                return Some(def);
            }
            idx += 1;
        }
        None
    }
}

/// `defs_params` matches the lookup `parameters`: same leaf and register, and
/// a sub-leaf range that includes the one looked up.
pub open spec fn parameters_match(defs_params: Parameters, parameters: Parameters) -> bool {
    &&& parameters.leaf == defs_params.leaf
    &&& parameters.sub_leaf@.start >= defs_params.sub_leaf@.start
    &&& parameters.sub_leaf@.end <= defs_params.sub_leaf@.end
    &&& parameters.register == defs_params.register
}

/// `defs[i]` is the first entry whose parameters match `parameters`.
pub open spec fn first_parameters_match(
    defs: Seq<(Parameters, ValueDefinitions)>,
    parameters: Parameters,
    i: int,
) -> bool {
    &&& 0 <= i < defs.len()
    &&& parameters_match(defs[i].0, parameters)
    &&& forall|j: int| 0 <= j < i ==> !parameters_match(#[trigger] defs[j].0, parameters)
}

/// Describes multiple CPUID outputs.
///
/// Each wrapped [`ValueDefinitions`] corresponds to the given [`Parameters`]
/// in the same tuple.
pub struct CpuidDefinitions<const NUM_PARAMETERS: usize>(
    [(Parameters, ValueDefinitions); NUM_PARAMETERS],
);

impl<const NUM_PARAMETERS: usize> View for CpuidDefinitions<NUM_PARAMETERS> {
    type V = Seq<(Parameters, ValueDefinitions)>;

    closed spec fn view(&self) -> Seq<(Parameters, ValueDefinitions)> {
        self.0@
    }
}

impl<const NUM_PARAMETERS: usize> CpuidDefinitions<NUM_PARAMETERS> {
    /// Definitions made of the given pairs of parameters and value definitions.
    pub fn new(definitions: [(Parameters, ValueDefinitions); NUM_PARAMETERS]) -> (r: Self)
        ensures
            r@ == definitions@,
    {
        CpuidDefinitions(definitions)
    }

    pub fn as_slice(&self) -> (r: &[(Parameters, ValueDefinitions); NUM_PARAMETERS])
        ensures
            r@ == self@,
    {
        &self.0
    }

    /// Looks up the first [`ValueDefinitions`] whose parameters match the
    /// given `parameters`.
    pub fn get(&self, parameters: &Parameters) -> (r: Option<&ValueDefinitions>)
        ensures
            match r {
                Some(defs) => exists|i: int| #[trigger] first_parameters_match(self@, *parameters, i) && *defs
                    == self@[i].1,
                None => forall|i: int|
                    0 <= i < self@.len() ==> !parameters_match(#[trigger] self@[i].0, *parameters),
            },
    {
        let mut idx: usize = 0;
        let len = NUM_PARAMETERS;
        let leaf = parameters.leaf;
        let sub_leaf_start = *parameters.sub_leaf.start();
        let sub_leaf_end = *parameters.sub_leaf.end();
        while idx < len
            invariant
                len == self@.len(),
                idx <= len,
                leaf == parameters.leaf,
                sub_leaf_start == parameters.sub_leaf@.start,
                sub_leaf_end == parameters.sub_leaf@.end,
                forall|j: int| 0 <= j < idx ==> !parameters_match(#[trigger] self@[j].0, *parameters),
            decreases len - idx,
        {
            let entry = &self.0[idx];
            let param = &entry.0;
            let matching_leaf = leaf == param.leaf;
            let matching_sub_leaf = sub_leaf_start >= *param.sub_leaf.start() && sub_leaf_end
                <= *param.sub_leaf.end();
            let matching_reg = parameters.register == param.register;
            if matching_leaf && matching_sub_leaf && matching_reg {
                assert(first_parameters_match(self@, *parameters, idx as int));
                return Some(&entry.1);
            }
            idx += 1;
        }
        None
    }
}

} // verus!
