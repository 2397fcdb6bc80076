//! Computation of the MSR part of a CPU profile from the MSRs that the host
//! CPU and hypervisor support.
use crate::cpu_profile_generation::{bit_range_mask, range_mask, GenerationError};
use crate::hypervisor_data::{CpuVendor, HypervisorType, MsrEntry};
use crate::msr_adjustments::{find_entry, find_msr, FeatureMsrAdjustment, MsrProfileData, RegisterAddress};
use crate::msr_definitions::{MsrDefinitions, ProfilePolicy, ValueDefinition, ValueDefinitions};
use std::collections::HashSet;
use vstd::prelude::*;
use vstd::std_specs::hash::spec_hash_keys_iter;
use vstd::std_specs::iter::IteratorSpec;

verus! {

/// Every value definition names a bit range inside a 64-bit MSR value (an
/// inverted range is empty and names no bit), a static value starts at a bit
/// of the value, and a `Deny` policy covers the whole value.
pub open spec fn msr_values_well_formed(values: Seq<ValueDefinition>) -> bool {
    forall|i: int|
        0 <= i < values.len() ==> {
            &&& (#[trigger] values[i]).bits_range.0 > values[i].bits_range.1 || values[i].bits_range.1 < 64
            &&& values[i].policy is Static ==> values[i].bits_range.0 < 64
            &&& values[i].policy == ProfilePolicy::Deny ==> values[i].bits_range == (0u8, 63u8)
        }
}

/// The definitions are well formed and name each register address once.
pub open spec fn msr_definitions_well_formed(defs: Seq<(RegisterAddress, ValueDefinitions)>) -> bool {
    &&& forall|i: int| 0 <= i < defs.len() ==> msr_values_well_formed((#[trigger] defs[i]).1@)
    &&& forall|i: int, j: int| 0 <= i < j < defs.len() ==> (#[trigger] defs[i]).0 != (#[trigger] defs[j]).0
}

/// No two entries are for the same MSR.
pub open spec fn msr_indexes_distinct(msrs: Seq<MsrEntry>) -> bool {
    forall|i: int, j: int| 0 <= i < j < msrs.len() ==> (#[trigger] msrs[i]).index != (#[trigger] msrs[j]).index
}

/// The mask, the replacements, the bits accounted for, and whether the MSR
/// is denied, that `values` give for an MSR whose host value is `data`.
pub open spec fn msr_value_fold(values: Seq<ValueDefinition>, data: u64) -> (u64, u64, u64, bool)
    decreases values.len(),
{
    if values.len() == 0 {
        (0, 0, 0, false)
    } else {
        let (mask, replacements, accounted, denied) = msr_value_fold(values.drop_last(), data);
        let v = values.last();
        let bits = range_mask(v.bits_range.0, v.bits_range.1 as int);
        match v.policy {
            ProfilePolicy::Deny => (mask, replacements, accounted | bits, true),
            ProfilePolicy::Inherit => (mask, replacements | (data & bits), accounted | bits, denied),
            ProfilePolicy::Passthrough => (mask | bits, replacements, accounted | bits, denied),
            ProfilePolicy::Static(overwrite) => (
                mask,
                replacements | (overwrite << v.bits_range.0),
                accounted | bits,
                denied,
            ),
        }
    }
}

/// The adjustment that `values` give for an MSR whose host value is `data`:
/// bits that no value accounts for are reserved and inherited from the host.
pub open spec fn msr_feature_adjustment(values: Seq<ValueDefinition>, data: u64) -> FeatureMsrAdjustment {
    let (mask, replacements, accounted, _) = msr_value_fold(values, data);
    FeatureMsrAdjustment { mask, replacements: replacements | (data & !accounted) }
}

/// MSRs whose value KVM reports but does not let a guest's set succeed: a
/// profile permits them without adjusting them.
pub open spec fn kvm_get_not_set(a: u32) -> bool {
    a == 0x481 || a == 0x482 || a == 0x483 || a == 0x484 || a == 0x487 || a == 0x489
}

/// The definition for `reg` is only permitted, not adjusted.
pub open spec fn permitted_unadjusted(hypervisor_type: HypervisorType, reg: RegisterAddress) -> bool {
    hypervisor_type == HypervisorType::Kvm && kvm_get_not_set(reg.0)
}

/// The adjustments that the feature MSR definitions `defs` give, in their
/// order: one for each definition whose MSR the host supports, that is not
/// only permitted, and whose values deny nothing.
pub open spec fn msr_profile_adjustments(
    hypervisor_type: HypervisorType,
    defs: Seq<(RegisterAddress, ValueDefinitions)>,
    supported: Seq<MsrEntry>,
) -> Seq<(RegisterAddress, FeatureMsrAdjustment)>
    decreases defs.len(),
{
    if defs.len() == 0 {
        Seq::empty()
    } else {
        let prev = msr_profile_adjustments(hypervisor_type, defs.drop_last(), supported);
        let (reg, values) = defs.last();
        match find_msr(supported, reg.0) {
            None => prev,
            Some(entry) => if permitted_unadjusted(hypervisor_type, reg) || msr_value_fold(
                values@,
                entry.data,
            ).3 {
                prev
            } else {
                prev.push((reg, msr_feature_adjustment(values@, entry.data)))
            },
        }
    }
}

/// The feature MSR at address `a` is permitted: a definition names it, the
/// host supports it, and it is either only permitted or none of its values
/// denies it.
pub open spec fn feature_msr_permitted(
    hypervisor_type: HypervisorType,
    defs: Seq<(RegisterAddress, ValueDefinitions)>,
    supported: Seq<MsrEntry>,
    a: u32,
) -> bool {
    exists|i: int|
        0 <= i < defs.len() && (#[trigger] defs[i]).0.0 == a && find_msr(supported, a) is Some && (
        permitted_unadjusted(hypervisor_type, defs[i].0) || !msr_value_fold(
            defs[i].1@,
            find_msr(supported, a)->0.data,
        ).3)
}

/// The VMX capability MSRs whose value KVM reports but whose writes by a
/// guest do not take effect: `IA32_VMX_PINBASED_CTLS` (0x481),
/// `IA32_VMX_PROCBASED_CTLS` (0x482), `IA32_VMX_EXIT_CTLS` (0x483),
/// `IA32_VMX_ENTRY_CTLS` (0x484), `IA32_VMX_CR0_FIXED1` (0x487) and
/// `IA32_VMX_CR4_FIXED1` (0x489).
pub open spec fn vmx_capability_msr(a: u32) -> bool {
    ||| a == 0x481
    ||| a == 0x482
    ||| a == 0x483
    ||| a == 0x484
    ||| a == 0x487
    ||| a == 0x489
}

/// On KVM, a profile never adjusts one of the VMX capability MSRs 0x481,
/// 0x482, 0x483, 0x484, 0x487 and 0x489, and permits each of them that a
/// definition names and the host supports, whatever the definition's values
/// say.
pub proof fn lemma_kvm_vmx_capabilities_unadjusted(
    defs: Seq<(RegisterAddress, ValueDefinitions)>,
    supported: Seq<MsrEntry>,
)
    ensures
        forall|i: int|
            0 <= i < msr_profile_adjustments(HypervisorType::Kvm, defs, supported).len() ==> !vmx_capability_msr(
                (#[trigger] msr_profile_adjustments(HypervisorType::Kvm, defs, supported)[i]).0.0,
            ),
        forall|i: int|
            0 <= i < defs.len() && vmx_capability_msr((#[trigger] defs[i]).0.0) && find_msr(
                supported,
                defs[i].0.0,
            ) is Some ==> feature_msr_permitted(HypervisorType::Kvm, defs, supported, defs[i].0.0),
    decreases defs.len(),
{
    if defs.len() > 0 {
        let prev = defs.drop_last();
        lemma_kvm_vmx_capabilities_unadjusted(prev, supported);
        let adj = msr_profile_adjustments(HypervisorType::Kvm, defs, supported);
        let padj = msr_profile_adjustments(HypervisorType::Kvm, prev, supported);
        assert forall|i: int| 0 <= i < adj.len() implies !vmx_capability_msr((#[trigger] adj[i]).0.0) by {
            if i < padj.len() {
                assert(adj[i] == padj[i]);
            }
        }
    }
    assert forall|i: int|
        0 <= i < defs.len() && vmx_capability_msr((#[trigger] defs[i]).0.0) && find_msr(supported, defs[i].0.0)
            is Some implies feature_msr_permitted(HypervisorType::Kvm, defs, supported, defs[i].0.0) by {
        assert(permitted_unadjusted(HypervisorType::Kvm, defs[i].0));
    }
}

/// How many definitions name an MSR that the host supports.
pub open spec fn found_count(defs: Seq<(RegisterAddress, ValueDefinitions)>, supported: Seq<MsrEntry>) -> int
    decreases defs.len(),
{
    if defs.len() == 0 {
        0
    } else {
        found_count(defs.drop_last(), supported) + if find_msr(supported, defs.last().0.0) is Some {
            1int
        } else {
            0int
        }
    }
}

/// Some definition names the MSR at address `a`.
pub open spec fn defines(defs: Seq<(RegisterAddress, ValueDefinitions)>, a: u32) -> bool {
    exists|i: int| 0 <= i < defs.len() && (#[trigger] defs[i]).0.0 == a
}

/// Some entry of `msrs` is for the MSR at address `a`.
pub open spec fn holds_msr(msrs: Seq<MsrEntry>, a: u32) -> bool {
    exists|j: int| 0 <= j < msrs.len() && (#[trigger] msrs[j]).index == a
}

/// The address of the first entry of `supported` that no definition names.
pub open spec fn first_undefined(
    defs: Seq<(RegisterAddress, ValueDefinitions)>,
    supported: Seq<MsrEntry>,
) -> Option<u32>
    decreases supported.len(),
{
    if supported.len() == 0 {
        None
    } else if !defines(defs, supported[0].index) {
        Some(supported[0].index)
    } else {
        first_undefined(defs, supported.drop_first())
    }
}

proof fn lemma_find_msr_holds(msrs: Seq<MsrEntry>, a: u32)
    ensures
        (find_msr(msrs, a) is Some) == holds_msr(msrs, a),
        find_msr(msrs, a) matches Some(e) ==> e.index == a,
    decreases msrs.len(),
{
    if msrs.len() > 0 {
        lemma_find_msr_holds(msrs.drop_first(), a);
        if holds_msr(msrs, a) && msrs[0].index != a {
            let j = choose|j: int| 0 <= j < msrs.len() && (#[trigger] msrs[j]).index == a;
            assert(msrs.drop_first()[j - 1] == msrs[j]);
        }
        if holds_msr(msrs.drop_first(), a) {
            let j = choose|j: int| 0 <= j < msrs.drop_first().len() && (#[trigger] msrs.drop_first()[j]).index == a;
            assert(msrs[j + 1] == msrs.drop_first()[j]);
        }
    }
}

/// How many definitions name the MSR at address `a`.
spec fn address_count(defs: Seq<(RegisterAddress, ValueDefinitions)>, a: u32) -> int
    decreases defs.len(),
{
    if defs.len() == 0 {
        0
    } else {
        address_count(defs.drop_last(), a) + if defs.last().0.0 == a {
            1int
        } else {
            0int
        }
    }
}

proof fn lemma_address_count_one(defs: Seq<(RegisterAddress, ValueDefinitions)>, a: u32)
    requires
        forall|i: int, j: int| 0 <= i < j < defs.len() ==> (#[trigger] defs[i]).0 != (#[trigger] defs[j]).0,
    ensures
        address_count(defs, a) == if defines(defs, a) {
            1int
        } else {
            0int
        },
    decreases defs.len(),
{
    if defs.len() > 0 {
        let d = defs.drop_last();
        assert forall|i: int, j: int| 0 <= i < j < d.len() implies (#[trigger] d[i]).0 != (#[trigger] d[j]).0 by {
            assert(d[i] == defs[i]);
            assert(d[j] == defs[j]);
        }
        lemma_address_count_one(d, a);
        if defines(d, a) {
            let i = choose|i: int| 0 <= i < d.len() && (#[trigger] d[i]).0.0 == a;
            assert(defs[i] == d[i]);
            assert(defs[i].0 != defs[defs.len() - 1].0);
        }
        if defines(defs, a) && defs.last().0.0 != a {
            let i = choose|i: int| 0 <= i < defs.len() && (#[trigger] defs[i]).0.0 == a;
            assert(d[i] == defs[i]);
        }
        if defs.last().0.0 == a {
            assert(defs[defs.len() - 1].0.0 == a);
        }
    }
}

/// Splitting off the last supported MSR moves exactly the definitions of its
/// address out of the count.
proof fn lemma_found_count_split(
    defs: Seq<(RegisterAddress, ValueDefinitions)>,
    supported: Seq<MsrEntry>,
)
    requires
        supported.len() > 0,
        !holds_msr(supported.drop_last(), supported.last().index),
    ensures
        found_count(defs, supported) == found_count(defs, supported.drop_last()) + address_count(
            defs,
            supported.last().index,
        ),
    decreases defs.len(),
{
    if defs.len() > 0 {
        lemma_found_count_split(defs.drop_last(), supported);
        let a = defs.last().0.0;
        lemma_find_msr_holds(supported, a);
        lemma_find_msr_holds(supported.drop_last(), a);
        let s = supported;
        if holds_msr(s, a) && a != s.last().index {
            let j = choose|j: int| 0 <= j < s.len() && (#[trigger] s[j]).index == a;
            assert(s.drop_last()[j] == s[j]);
        }
        if holds_msr(s.drop_last(), a) {
            let j = choose|j: int| 0 <= j < s.drop_last().len() && (#[trigger] s.drop_last()[j]).index == a;
            assert(s[j] == s.drop_last()[j]);
        }
        if a == s.last().index {
            assert(s[s.len() - 1].index == a);
        }
    }
}

/// When the definitions name distinct addresses, the host's feature MSRs
/// have distinct indexes, and every one of them is defined, every one of
/// them is found by exactly one definition.
proof fn lemma_found_count_all_defined(
    defs: Seq<(RegisterAddress, ValueDefinitions)>,
    supported: Seq<MsrEntry>,
)
    requires
        forall|i: int, j: int| 0 <= i < j < defs.len() ==> (#[trigger] defs[i]).0 != (#[trigger] defs[j]).0,
        msr_indexes_distinct(supported),
        forall|j: int| 0 <= j < supported.len() ==> defines(defs, (#[trigger] supported[j]).index),
    ensures
        found_count(defs, supported) == supported.len(),
    decreases supported.len(),
{
    if supported.len() == 0 {
        lemma_found_count_empty(defs, supported);
    } else {
        let s = supported;
        let d = s.drop_last();
        assert forall|i: int, j: int| 0 <= i < j < d.len() implies (#[trigger] d[i]).index != (#[trigger] d[j]).index by {
            assert(d[i] == s[i]);
            assert(d[j] == s[j]);
        }
        assert forall|j: int| 0 <= j < d.len() implies defines(defs, (#[trigger] d[j]).index) by {
            assert(d[j] == s[j]);
        }
        if holds_msr(d, s.last().index) {
            let j = choose|j: int| 0 <= j < d.len() && (#[trigger] d[j]).index == s.last().index;
            assert(d[j] == s[j]);
            assert(s[j].index != s[s.len() - 1].index);
        }
        lemma_found_count_all_defined(defs, d);
        lemma_found_count_split(defs, s);
        assert(defines(defs, s[s.len() - 1].index));
        lemma_address_count_one(defs, s.last().index);
    }
}

proof fn lemma_found_count_empty(defs: Seq<(RegisterAddress, ValueDefinitions)>, supported: Seq<MsrEntry>)
    requires
        supported.len() == 0,
    ensures
        found_count(defs, supported) == 0,
    decreases defs.len(),
{
    if defs.len() > 0 {
        lemma_found_count_empty(defs.drop_last(), supported);
    }
}

proof fn lemma_first_undefined(defs: Seq<(RegisterAddress, ValueDefinitions)>, supported: Seq<MsrEntry>)
    ensures
        first_undefined(defs, supported) is None ==> forall|j: int|
            0 <= j < supported.len() ==> defines(defs, (#[trigger] supported[j]).index),
        first_undefined(defs, supported) matches Some(a) ==> holds_msr(supported, a) && !defines(defs, a),
    decreases supported.len(),
{
    if supported.len() > 0 {
        let rest = supported.drop_first();
        lemma_first_undefined(defs, rest);
        if first_undefined(defs, supported) is None {
            assert forall|j: int| 0 <= j < supported.len() implies defines(defs, (#[trigger] supported[j]).index) by {
                if j > 0 {
                    assert(supported[j] == rest[j - 1]);
                }
            }
        }
        if first_undefined(defs, supported) is Some {
            let a = first_undefined(defs, supported)->0;
            if defines(defs, supported[0].index) {
                let j = choose|j: int| 0 <= j < rest.len() && (#[trigger] rest[j]).index == a;
                assert(supported[j + 1] == rest[j]);
            } else {
                assert(supported[0].index == a);
            }
        }
    }
}

/// The values of `s` are strictly ascending.
pub open spec fn strictly_ascending(s: Seq<u32>) -> bool {
    forall|i: int, j: int| 0 <= i < j < s.len() ==> (#[trigger] s[i]) < (#[trigger] s[j])
}

/// Calls `slice::sort` on the addresses: each is kept, as often as before,
/// and they come out in ascending order.
#[verifier::external_body]
fn sort_addresses(v: &mut Vec<u32>)
    ensures
        final(v)@.to_multiset() == old(v)@.to_multiset(),
        forall|i: int, j: int| 0 <= i < j < final(v)@.len() ==> (#[trigger] final(v)@[i]) <= (#[trigger] final(v)@[j]),
{
    v.sort();
}

/// The addresses of `set` in ascending order.
fn sorted_addresses(set: &HashSet<u32>) -> (r: Vec<u32>)
    ensures
        strictly_ascending(r@),
        forall|a: u32| #![trigger r@.contains(a)] r@.contains(a) <==> set@.contains(a),
{
    broadcast use vstd::std_specs::hash::group_hash_axioms;

    let mut v: Vec<u32> = Vec::new();
    let ghost keys = spec_hash_keys_iter(set).remaining();
    for x in it: set.iter()
        invariant
            it.seq() == keys,
            keys.unref().to_set() == set@,
            keys.no_duplicates(),
            v@.len() == it.index(),
            forall|k: int| 0 <= k < it.index() ==> v@[k] == *keys[k],
    {
        v.push(*x);
    }
    assert(v@ =~= keys.unref());
    let ghost unsorted = v@;
    sort_addresses(&mut v);
    proof {
        unsorted.to_multiset_ensures();
        v@.to_multiset_ensures();
        assert forall|a: u32| #![trigger v@.contains(a)] v@.contains(a) <==> set@.contains(a) by {
            assert(v@.contains(a) <==> v@.to_multiset().count(a) > 0);
            assert(unsorted.contains(a) <==> unsorted.to_multiset().count(a) > 0);
            assert(unsorted.to_set().contains(a) <==> unsorted.contains(a));
        }
        assert(unsorted.no_duplicates()) by {
            assert forall|i: int, j: int| 0 <= i < unsorted.len() && 0 <= j < unsorted.len() && i != j implies unsorted[i] != unsorted[j] by {
                assert(unsorted[i] == *keys[i]);
                assert(unsorted[j] == *keys[j]);
                assert(keys[i] != keys[j]);
            }
        }
        unsorted.lemma_multiset_has_no_duplicates();
        v@.lemma_multiset_has_no_duplicates_conv();
        assert forall|i: int, j: int| 0 <= i < j < v@.len() implies (#[trigger] v@[i]) < (#[trigger] v@[j]) by {
            assert(v@[i] <= v@[j]);
            assert(v@[i] != v@[j]);
        }
    }
    v
}

/// `s` holds `x`.
fn slice_contains(s: &[u32], x: u32) -> (r: bool)
    ensures
        r == s@.contains(x),
{
    let mut i: usize = 0;
    while i < s.len()
        invariant
            i <= s@.len(),
            forall|k: int| 0 <= k < i ==> s@[k] != x,
        decreases s@.len() - i,
    {
        if s[i] == x {
            return true;
        }
        i = i + 1;
    }
    false
}

/// Some range of `ranges` (bounds included) holds `x`.
pub open spec fn in_some_range(ranges: Seq<(u32, u32)>, x: u32) -> bool {
    exists|k: int| 0 <= k < ranges.len() && (#[trigger] ranges[k]).0 <= x && x <= ranges[k].1
}

/// Some range of `ranges` (bounds included) holds `x`.
fn ranges_contain(ranges: &[(u32, u32)], x: u32) -> (r: bool)
    ensures
        r == in_some_range(ranges@, x),
{
    let mut i: usize = 0;
    while i < ranges.len()
        invariant
            i <= ranges@.len(),
            forall|k: int| 0 <= k < i ==> !((#[trigger] ranges@[k]).0 <= x && x <= ranges@[k].1),
        decreases ranges@.len() - i,
    {
        if ranges[i].0 <= x && x <= ranges[i].1 {
            return true;
        }
        i = i + 1;
    }
    false
}

/// Some definition names the MSR at address `a`.
fn is_defined<const N: usize>(defs: &[(RegisterAddress, ValueDefinitions); N], a: u32) -> (r: bool)
    ensures
        r == defines(defs@, a),
{
    let mut i: usize = 0;
    while i < N
        invariant
            i <= N,
            N == defs@.len(),
            forall|k: int| 0 <= k < i ==> (#[trigger] defs@[k]).0.0 != a,
        decreases N - i,
    {
        if defs[i].0.0 == a {
            return true;
        }
        i = i + 1;
    }
    false
}

/// The address of the first supported feature MSR that no definition names.
fn find_first_undefined<const N: usize>(
    defs: &[(RegisterAddress, ValueDefinitions); N],
    supported: &[MsrEntry],
) -> (r: Option<u32>)
    ensures
        r == first_undefined(defs@, supported@),
{
    let mut i: usize = 0;
    assert(supported@.skip(0) == supported@);
    while i < supported.len()
        invariant
            i <= supported@.len(),
            first_undefined(defs@, supported@) == first_undefined(defs@, supported@.skip(i as int)),
        decreases supported@.len() - i,
    {
        assert(supported@.skip(i as int).drop_first() == supported@.skip(i + 1));
        if !is_defined(defs, supported[i].index) {
            return Some(supported[i].index);
        }
        i = i + 1;
    }
    None
}

/// The mask, the replacements and the bits accounted for that `values` give
/// for an MSR whose value is `data`, and whether a value denies the MSR. The
/// values after a denying one are not looked at: only the flag counts then.
fn msr_value_adjust(values: &[ValueDefinition], data: u64) -> (r: (u64, u64, u64, bool))
    requires
        msr_values_well_formed(values@),
    ensures
        r.3 == msr_value_fold(values@, data).3,
        !r.3 ==> r == msr_value_fold(values@, data),
{
    let mut replacements: u64 = 0;
    let mut mask: u64 = 0;
    let mut bits_accounted_for: u64 = 0;
    let mut i: usize = 0;
    while i < values.len()
        invariant
            i <= values@.len(),
            msr_values_well_formed(values@),
            (mask, replacements, bits_accounted_for, false) == msr_value_fold(values@.take(i as int), data),
        decreases values@.len() - i,
    {
        let v = values[i];
        let (first_bit_pos, last_bit_pos) = v.bits_range;
        proof {
            assert(values@.take(i + 1).drop_last() == values@.take(i as int));
            assert(values@.take(i + 1).last() == values@[i as int]);
        }
        let temp_mask = bit_range_mask(first_bit_pos, last_bit_pos);
        bits_accounted_for = bits_accounted_for | temp_mask;
        match v.policy {
            ProfilePolicy::Deny => {
                proof {
                    lemma_fold_stays_denied(values@, data, i + 1);
                }
                return (mask, replacements, bits_accounted_for, true);
            },
            ProfilePolicy::Inherit => {
                replacements = replacements | (data & temp_mask);
            },
            ProfilePolicy::Passthrough => {
                mask = mask | temp_mask;
            },
            ProfilePolicy::Static(overwrite_value) => {
                replacements = replacements | (overwrite_value << first_bit_pos);
            },
        }
        i = i + 1;
    }
    assert(values@.take(i as int) == values@);
    (mask, replacements, bits_accounted_for, false)
}

proof fn lemma_fold_stays_denied(values: Seq<ValueDefinition>, data: u64, k: int)
    requires
        0 <= k <= values.len(),
        msr_value_fold(values.take(k), data).3,
    ensures
        msr_value_fold(values, data).3,
    decreases values.len() - k,
{
    if k < values.len() {
        assert(values.take(k + 1).drop_last() == values.take(k));
        lemma_fold_stays_denied(values, data, k + 1);
    } else {
        assert(values.take(k) == values);
    }
}

/// What the generation of the MSR part of a CPU profile starts from.
pub struct MsrProfileDataParams<'a, const N: usize> {
    pub hypervisor_type: HypervisorType,
    pub cpu_vendor: CpuVendor,
    pub processor_feature_msr_definitions: &'a MsrDefinitions<N>,
    /// MSR-based features supported by the hardware and hypervisor used to
    /// generate this CPU profile.
    pub supported_feature_msrs: &'a [MsrEntry],
    /// MSRs supported by the hardware and hypervisor used to generate this
    /// CPU profile.
    pub supported_msrs: &'a [u32],
    /// Architectural MSRs that are permitted if they are also supported.
    pub permitted_architectural_msrs: &'a [u32],
    /// MSRs defined by the hypervisor that are permitted if they are also
    /// supported.
    pub permitted_hypervisor_msrs: &'a [u32],
    /// Hyper-V related MSRs.
    ///
    /// Whether these are truly permitted can only be known when the profile
    /// is applied, so the profile includes them regardless of whether they
    /// are supported, and the virtual machine monitor removes them when it
    /// applies the profile if necessary.
    pub permitted_hyperv_msrs: &'a [u32],
    /// Known non-architectural MSRs; only used to detect unknown MSRs.
    pub non_architectural_msrs: &'a [u32],
    /// Ranges of architectural MSRs that no CPU profile permits; only used
    /// to detect unknown MSRs.
    pub forbidden_architectural_msrs: &'a [(u32, u32)],
}

/// The MSR at address `a` is permitted by the profile: as a feature MSR, as
/// a supported MSR from the architectural or hypervisor lists, or as a
/// Hyper-V MSR, supported or not.
pub open spec fn msr_permitted<'a, const N: usize>(p: MsrProfileDataParams<'a, N>, a: u32) -> bool {
    ||| feature_msr_permitted(
        p.hypervisor_type,
        p.processor_feature_msr_definitions@,
        p.supported_feature_msrs@,
        a,
    )
    ||| ((p.permitted_architectural_msrs@.contains(a) || p.permitted_hypervisor_msrs@.contains(a))
        && p.supported_msrs@.contains(a))
    ||| p.permitted_hyperv_msrs@.contains(a)
}

/// The supported MSR `a` is not known to the definitions: not permitted, not
/// a feature MSR, not a forbidden architectural MSR and not a known
/// non-architectural MSR.
pub open spec fn msr_unknown<'a, const N: usize>(p: MsrProfileDataParams<'a, N>, a: u32) -> bool {
    &&& !msr_permitted(p, a)
    &&& !defines(p.processor_feature_msr_definitions@, a)
    &&& !in_some_range(p.forbidden_architectural_msrs@, a)
    &&& !p.non_architectural_msrs@.contains(a)
}

/// The MSRs of `msrs` that are unknown, in their order.
pub open spec fn unknown_msrs<'a, const N: usize>(p: MsrProfileDataParams<'a, N>, msrs: Seq<u32>) -> Seq<u32>
    decreases msrs.len(),
{
    if msrs.len() == 0 {
        Seq::empty()
    } else {
        let prev = unknown_msrs(p, msrs.drop_last());
        if msr_unknown(p, msrs.last()) {
            prev.push(msrs.last())
        } else {
            prev
        }
    }
}

/// The register addresses of `regs`.
pub open spec fn addresses(regs: Seq<RegisterAddress>) -> Seq<u32> {
    regs.map_values(|r: RegisterAddress| r.0)
}

/// Permits every supported MSR of `list`.
fn permit_supported(permitted: &mut HashSet<u32>, list: &[u32], supported_msrs: &[u32])
    ensures
        forall|a: u32|
            #![trigger final(permitted)@.contains(a)]
            final(permitted)@.contains(a) <==> (old(permitted)@.contains(a) || (list@.contains(a)
                && supported_msrs@.contains(a))),
{
    broadcast use vstd::std_specs::hash::group_hash_axioms;

    let mut i: usize = 0;
    while i < list.len()
        invariant
            i <= list@.len(),
            forall|a: u32|
                #![trigger permitted@.contains(a)]
                permitted@.contains(a) <==> (old(permitted)@.contains(a) || (list@.take(i as int).contains(a)
                    && supported_msrs@.contains(a))),
        decreases list@.len() - i,
    {
        let msr = list[i];
        proof {
            assert forall|a: u32| list@.take(i + 1).contains(a) <==> (list@.take(i as int).contains(a) || a == msr) by {
                if list@.take(i + 1).contains(a) {
                    let k = choose|k: int| 0 <= k < i + 1 && #[trigger] list@.take(i + 1)[k] == a;
                    if k < i {
                        assert(list@.take(i as int)[k] == a);
                    }
                }
                if list@.take(i as int).contains(a) {
                    let k = choose|k: int| 0 <= k < i && #[trigger] list@.take(i as int)[k] == a;
                    assert(list@.take(i + 1)[k] == a);
                }
                if a == msr {
                    assert(list@.take(i + 1)[i as int] == a);
                }
            }
        }
        let ghost before = permitted@;
        let supported = slice_contains(supported_msrs, msr);
        if supported {
            permitted.insert(msr);
        }
        proof {
            assert forall|a: u32|
                permitted@.contains(a) <==> (old(permitted)@.contains(a) || (list@.take(i + 1).contains(a)
                    && supported_msrs@.contains(a))) by {
                assert(list@.take(i + 1).contains(a) <==> (list@.take(i as int).contains(a) || a == msr));
                assert(before.contains(a) <==> (old(permitted)@.contains(a) || (list@.take(i as int).contains(a)
                    && supported_msrs@.contains(a))));
            }
        }
        i = i + 1;
    }
    proof {
        assert(list@.take(i as int) == list@);
        assert forall|a: u32|
            permitted@.contains(a) <==> (old(permitted)@.contains(a) || (list@.contains(a)
                && supported_msrs@.contains(a))) by {
            assert(permitted@.contains(a) <==> (old(permitted)@.contains(a) || (list@.take(i as int).contains(a)
                && supported_msrs@.contains(a))));
        }
    }
}

/// The MSR at address `a` is one whose value KVM reports but whose guest
/// writes do not take effect.
fn is_kvm_get_not_set(a: u32) -> (r: bool)
    ensures
        r == kvm_get_not_set(a),
{
    // IA32_VMX_PINBASED_CTLS, IA32_VMX_PROCBASED_CTLS, IA32_VMX_EXIT_CTLS,
    // IA32_VMX_ENTRY_CTLS, IA32_VMX_CR0_FIXED1, IA32_VMX_CR4_FIXED1
    a == 0x481 || a == 0x482 || a == 0x483 || a == 0x484 || a == 0x487 || a == 0x489
}

proof fn lemma_feature_permitted_step(
    hypervisor_type: HypervisorType,
    defs: Seq<(RegisterAddress, ValueDefinitions)>,
    supported: Seq<MsrEntry>,
    idx: int,
    a: u32,
)
    requires
        0 <= idx < defs.len(),
    ensures
        feature_msr_permitted(hypervisor_type, defs.take(idx + 1), supported, a) <==> (
        feature_msr_permitted(hypervisor_type, defs.take(idx), supported, a) || (a == defs[idx].0.0
            && find_msr(supported, a) is Some && (permitted_unadjusted(hypervisor_type, defs[idx].0)
            || !msr_value_fold(defs[idx].1@, find_msr(supported, a)->0.data).3))),
{
    let next = defs.take(idx + 1);
    let pre = defs.take(idx);
    if feature_msr_permitted(hypervisor_type, next, supported, a) {
        let i = choose|i: int|
            0 <= i < next.len() && (#[trigger] next[i]).0.0 == a && find_msr(supported, a) is Some && (
            permitted_unadjusted(hypervisor_type, next[i].0) || !msr_value_fold(
                next[i].1@,
                find_msr(supported, a)->0.data,
            ).3);
        if i < idx {
            assert(pre[i] == next[i]);
        }
    }
    if feature_msr_permitted(hypervisor_type, pre, supported, a) {
        let i = choose|i: int|
            0 <= i < pre.len() && (#[trigger] pre[i]).0.0 == a && find_msr(supported, a) is Some && (
            permitted_unadjusted(hypervisor_type, pre[i].0) || !msr_value_fold(
                pre[i].1@,
                find_msr(supported, a)->0.data,
            ).3);
        assert(next[i] == pre[i]);
    }
    if a == defs[idx].0.0 && find_msr(supported, a) is Some && (permitted_unadjusted(
        hypervisor_type,
        defs[idx].0,
    ) || !msr_value_fold(defs[idx].1@, find_msr(supported, a)->0.data).3) {
        assert(next[idx] == defs[idx]);
    }
}

/// Computes the MSR part of a CPU profile.
///
/// For each feature MSR definition whose MSR the host supports: KVM's
/// read-only VMX capability MSRs are only permitted; other MSRs are
/// permitted and adjusted by their value definitions, with bits that no
/// definition accounts for inherited from the host, unless a definition
/// denies the MSR. Every host feature MSR must be defined, else the result is
/// the error that names the first undefined one. The MSRs of the permitted
/// lists are permitted where the host supports them. Besides the profile
/// data, the result holds the supported MSRs that no list knows of, in the
/// order of `supported_msrs`, for the caller to report.
pub fn generate_msr_profile_data_with<'a, const N: usize>(p: MsrProfileDataParams<'a, N>) -> (r: Result<
    (MsrProfileData, Vec<u32>),
    GenerationError,
>)
    requires
        msr_definitions_well_formed(p.processor_feature_msr_definitions@),
        msr_indexes_distinct(p.supported_feature_msrs@) || first_undefined(
            p.processor_feature_msr_definitions@,
            p.supported_feature_msrs@,
        ) is Some,
    ensures
        found_count(p.processor_feature_msr_definitions@, p.supported_feature_msrs@)
            != p.supported_feature_msrs@.len() ==> r == Err::<(MsrProfileData, Vec<u32>), GenerationError>(
            GenerationError::UnknownFeatureMsr(
                first_undefined(p.processor_feature_msr_definitions@, p.supported_feature_msrs@)->0,
            ),
        ),
        found_count(p.processor_feature_msr_definitions@, p.supported_feature_msrs@)
            == p.supported_feature_msrs@.len() ==> (r matches Ok((data, unknown)) && {
            &&& data.hypervisor_type == p.hypervisor_type
            &&& data.cpu_vendor == p.cpu_vendor
            &&& data.adjustments@ == msr_profile_adjustments(
                p.hypervisor_type,
                p.processor_feature_msr_definitions@,
                p.supported_feature_msrs@,
            )
            &&& strictly_ascending(addresses(data.permitted_msrs@))
            &&& forall|a: u32|
                #![trigger addresses(data.permitted_msrs@).contains(a)]
                addresses(data.permitted_msrs@).contains(a) <==> msr_permitted(p, a)
            &&& unknown@ == unknown_msrs(p, p.supported_msrs@)
        }),
{
    let ghost defs_v = p.processor_feature_msr_definitions@;
    let ghost supp = p.supported_feature_msrs@;
    let ht = p.hypervisor_type;
    let defs = p.processor_feature_msr_definitions.as_slice();
    let supported_feature_msrs = p.supported_feature_msrs;
    let mut entries_encountered: usize = 0;
    let mut adjustments: Vec<(RegisterAddress, FeatureMsrAdjustment)> = Vec::new();
    broadcast use vstd::std_specs::hash::group_hash_axioms;

    let mut permitted: HashSet<u32> = HashSet::new();
    let mut idx: usize = 0;
    while idx < N
        invariant
            idx <= N,
            N == defs_v.len(),
            defs@ == defs_v,
            defs_v == p.processor_feature_msr_definitions@,
            supp == p.supported_feature_msrs@,
            supported_feature_msrs@ == supp,
            ht == p.hypervisor_type,
            msr_definitions_well_formed(defs_v),
            entries_encountered <= idx,
            entries_encountered == found_count(defs_v.take(idx as int), supp),
            adjustments@ == msr_profile_adjustments(ht, defs_v.take(idx as int), supp),
            forall|a: u32|
                #![trigger permitted@.contains(a)]
                permitted@.contains(a) <==> feature_msr_permitted(ht, defs_v.take(idx as int), supp, a),
        decreases N - idx,
    {
        let entry_ref = &defs[idx];
        let reg_addr = entry_ref.0;
        let ghost next = defs_v.take(idx + 1);
        proof {
            assert(next.drop_last() == defs_v.take(idx as int));
            assert(next.last() == defs_v[idx as int]);
            lemma_find_msr_holds(supp, reg_addr.0);
        }
        match find_entry(supported_feature_msrs, reg_addr.0) {
            None => {
                proof {
                    assert forall|a: u32|
                        #![trigger permitted@.contains(a)]
                        permitted@.contains(a) <==> feature_msr_permitted(ht, next, supp, a) by {
                        lemma_feature_permitted_step(ht, defs_v, supp, idx as int, a);
                    }
                }
            },
            Some(entry) => {
                entries_encountered = entries_encountered + 1;
                let ghost before = permitted@;
                if ht == HypervisorType::Kvm && is_kvm_get_not_set(reg_addr.0) {
                    permitted.insert(reg_addr.0);
                } else {
                    let value = entry.data;
                    proof {
                        assert(msr_values_well_formed(defs_v[idx as int].1@));
                    }
                    let (mask, replacements, bits_accounted_for, denied) = msr_value_adjust(
                        entry_ref.1.as_slice(),
                        value,
                    );
                    if !denied {
                        let reserved_values = value & !bits_accounted_for;
                        let replacements = replacements | reserved_values;
                        permitted.insert(reg_addr.0);
                        adjustments.push((reg_addr, FeatureMsrAdjustment { mask, replacements }));
                    }
                }
                proof {
                    assert forall|a: u32|
                        #![trigger permitted@.contains(a)]
                        permitted@.contains(a) <==> feature_msr_permitted(ht, next, supp, a) by {
                        lemma_feature_permitted_step(ht, defs_v, supp, idx as int, a);
                        assert(before.contains(a) <==> feature_msr_permitted(
                            ht,
                            defs_v.take(idx as int),
                            supp,
                            a,
                        ));
                    }
                }
            },
        }
        idx = idx + 1;
    }
    proof {
        assert(defs_v.take(N as int) == defs_v);
    }
    if entries_encountered != supported_feature_msrs.len() {
        let unknown = find_first_undefined(defs, supported_feature_msrs);
        proof {
            lemma_first_undefined(defs_v, supp);
        }
        match unknown {
            Some(unknown_register_address) => {
                return Err(GenerationError::UnknownFeatureMsr(unknown_register_address));
            },
            None => {
                proof {
                    lemma_found_count_all_defined(defs_v, supp);
                    assert(false);
                }
                return Err(GenerationError::UnknownFeatureMsr(0));
            },
        }
    }
    let ghost feature_permitted = permitted@;
    permit_supported(&mut permitted, p.permitted_architectural_msrs, p.supported_msrs);
    permit_supported(&mut permitted, p.permitted_hypervisor_msrs, p.supported_msrs);
    // Every Hyper-V MSR is taken, whether supported or not: the list stands
    // for itself as the supported one.
    permit_supported(&mut permitted, p.permitted_hyperv_msrs, p.permitted_hyperv_msrs);
    proof {
        assert forall|a: u32| #![trigger permitted@.contains(a)] permitted@.contains(a) <==> msr_permitted(p, a) by {
            assert(feature_permitted.contains(a) <==> feature_msr_permitted(ht, defs_v, supp, a));
        }
    }
    let mut unknown: Vec<u32> = Vec::new();
    let supported_msrs = p.supported_msrs;
    let mut i: usize = 0;
    while i < supported_msrs.len()
        invariant
            i <= supported_msrs@.len(),
            supported_msrs@ == p.supported_msrs@,
            defs@ == p.processor_feature_msr_definitions@,
            forall|a: u32| #![trigger permitted@.contains(a)] permitted@.contains(a) <==> msr_permitted(p, a),
            unknown@ == unknown_msrs(p, supported_msrs@.take(i as int)),
        decreases supported_msrs@.len() - i,
    {
        let msr = supported_msrs[i];
        proof {
            assert(supported_msrs@.take(i + 1).drop_last() == supported_msrs@.take(i as int));
            assert(supported_msrs@.take(i + 1).last() == msr);
        }
        let is_permitted = permitted.contains(&msr);
        let is_proc_feat_msr = is_defined(defs, msr);
        let is_architectural_msr = ranges_contain(p.forbidden_architectural_msrs, msr);
        let is_non_architectural_msr = slice_contains(p.non_architectural_msrs, msr);
        if !is_permitted && !is_proc_feat_msr && !is_architectural_msr && !is_non_architectural_msr {
            unknown.push(msr);
        }
        i = i + 1;
    }
    proof {
        assert(supported_msrs@.take(i as int) == supported_msrs@);
    }
    let sorted = sorted_addresses(&permitted);
    let mut permitted_msrs: Vec<RegisterAddress> = Vec::new();
    let mut k: usize = 0;
    while k < sorted.len()
        invariant
            k <= sorted@.len(),
            addresses(permitted_msrs@) == sorted@.take(k as int),
        decreases sorted@.len() - k,
    {
        let ghost old_regs = permitted_msrs@;
        permitted_msrs.push(RegisterAddress(sorted[k]));
        k = k + 1;
        proof {
            assert(addresses(permitted_msrs@) =~= addresses(old_regs).push(sorted@[k - 1]));
            assert(sorted@.take(k as int) =~= sorted@.take(k - 1).push(sorted@[k - 1]));
        }
    }
    assert(sorted@.take(k as int) == sorted@);
    let data = MsrProfileData {
        hypervisor_type: p.hypervisor_type,
        cpu_vendor: p.cpu_vendor,
        adjustments,
        permitted_msrs,
    };
    Ok((data, unknown))
}

} // verus!
