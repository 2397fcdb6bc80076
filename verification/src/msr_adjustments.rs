//! Adjustments that a CPU profile makes to the values of feature MSRs.
use crate::cpu_profile_generation::bit_set;
use crate::hypervisor_data::{CpuVendor, HypervisorType, MsrEntry};
use vstd::prelude::*;

verus! {

/// The register address of an MSR.
#[derive(Debug, Copy, Clone, PartialEq, Eq, Structural)]
pub struct RegisterAddress(pub u32);

/// Used to adjust the value of a feature MSR.
///
/// Instances of this struct adjust MSR values according to the formula
/// `msr_value = (self.mask & msr_value) | self.replacements`.
#[derive(Debug, Copy, Clone, PartialEq, Eq, Structural)]
pub struct FeatureMsrAdjustment {
    /// Packs values to be placed into the given feature MSR value.
    pub replacements: u64,
    /// Zeroes out the area that `replacements` occupies: bit ranges of the
    /// feature MSR value that are **not** to be overwritten are set here.
    pub mask: u64,
}

/// Data describing the MSR adjustments of a CPU profile.
#[derive(Debug, Clone, PartialEq, Eq)]
pub struct MsrProfileData {
    pub hypervisor_type: HypervisorType,
    pub cpu_vendor: CpuVendor,
    /// Feature MSR adjustments necessary to become compatible with the
    /// desired target.
    pub adjustments: Vec<(RegisterAddress, FeatureMsrAdjustment)>,
    /// The MSRs that guests may access, sorted by address.
    pub permitted_msrs: Vec<RegisterAddress>,
}

/// Errors of applying a CPU profile.
#[derive(Debug, Copy, Clone, PartialEq, Eq, Structural)]
pub enum ProfileError {
    /// The profile adjusts a feature MSR that the host does not report.
    CpuProfileMissingMsr,
}

/// The first entry of `msrs` whose index is `index`, if any.
pub open spec fn find_msr(msrs: Seq<MsrEntry>, index: u32) -> Option<MsrEntry>
    decreases msrs.len(),
{
    if msrs.len() == 0 {
        None
    } else if msrs[0].index == index {
        Some(msrs[0])
    } else {
        find_msr(msrs.drop_first(), index)
    }
}

/// The value that `adjustment` makes of `data`.
pub open spec fn adjusted_value(adjustment: FeatureMsrAdjustment, data: u64) -> u64 {
    (adjustment.mask & data) | adjustment.replacements
}

/// The adjusted entries, in the order of the adjustments, of those MSRs that
/// `adjustments` names and `msrs` holds.
pub open spec fn adjusted_msrs(
    adjustments: Seq<(RegisterAddress, FeatureMsrAdjustment)>,
    msrs: Seq<MsrEntry>,
) -> Seq<MsrEntry>
    decreases adjustments.len(),
{
    if adjustments.len() == 0 {
        Seq::empty()
    } else {
        let (reg, adjustment) = adjustments.last();
        let prev = adjusted_msrs(adjustments.drop_last(), msrs);
        match find_msr(msrs, reg.0) {
            Some(entry) => prev.push(
                MsrEntry { index: entry.index, data: adjusted_value(adjustment, entry.data) },
            ),
            None => prev,
        }
    }
}

/// Every MSR that `adjustments` names is held by `msrs`.
pub open spec fn all_adjusted_msrs_present(
    adjustments: Seq<(RegisterAddress, FeatureMsrAdjustment)>,
    msrs: Seq<MsrEntry>,
) -> bool {
    forall|i: int| 0 <= i < adjustments.len() ==> #[trigger] find_msr(msrs, adjustments[i].0.0) is Some
}

/// The first entry of `msrs` whose index is `index`, if any.
pub(crate) fn find_entry(msrs: &[MsrEntry], index: u32) -> (r: Option<MsrEntry>)
    ensures
        r == find_msr(msrs@, index),
{
    let mut i: usize = 0;
    assert(msrs@.skip(0) == msrs@);
    while i < msrs.len()
        invariant
            i <= msrs@.len(),
            find_msr(msrs@, index) == find_msr(msrs@.skip(i as int), index),
        decreases msrs@.len() - i,
    {
        assert(msrs@.skip(i as int).drop_first() == msrs@.skip(i + 1));
        if msrs[i].index == index {
            return Some(msrs[i]);
        }
        i = i + 1;
    }
    None
}

impl FeatureMsrAdjustment {
    /// Adjusts the given `feature_msrs` according to `adjustments`.
    ///
    /// An error is returned if an MSR register address in `adjustments` has
    /// no matching entry in `feature_msrs`. Entries in `feature_msrs` that no
    /// adjustment names are tolerated and left out of the result.
    pub fn adjust_to(
        adjustments: &[(RegisterAddress, FeatureMsrAdjustment)],
        feature_msrs: &[MsrEntry],
    ) -> (r: Result<Vec<MsrEntry>, ProfileError>)
        ensures
            all_adjusted_msrs_present(adjustments@, feature_msrs@) ==> (r matches Ok(v) && v@
                == adjusted_msrs(adjustments@, feature_msrs@)),
            !all_adjusted_msrs_present(adjustments@, feature_msrs@) ==> r == Err::<
                Vec<MsrEntry>,
                ProfileError,
            >(ProfileError::CpuProfileMissingMsr),
    {
        let mut missing_msr = false;
        let mut output_feature_msrs: Vec<MsrEntry> = Vec::new();
        let mut i: usize = 0;
        while i < adjustments.len()
            invariant
                i <= adjustments@.len(),
                output_feature_msrs@ == adjusted_msrs(adjustments@.take(i as int), feature_msrs@),
                missing_msr == !all_adjusted_msrs_present(
                    adjustments@.take(i as int),
                    feature_msrs@,
                ),
            decreases adjustments@.len() - i,
        {
            let (reg_address, adjustment) = adjustments[i];
            let ghost pre = adjustments@.take(i as int);
            let ghost next = adjustments@.take(i + 1);
            proof {
                assert(next.drop_last() == pre);
                assert(next.last() == adjustments@[i as int]);
                assert forall|k: int| 0 <= k < pre.len() implies pre[k] == next[k] by {}
            }
            match find_entry(feature_msrs, reg_address.0) {
                None => {
                    missing_msr = true;
                    proof {
                        assert(find_msr(feature_msrs@, next[i as int].0.0) is None);
                    }
                },
                Some(entry) => {
                    let data = entry.data;
                    output_feature_msrs.push(
                        MsrEntry { index: entry.index, data: (adjustment.mask & data) | adjustment.replacements },
                    );
                    proof {
                        if all_adjusted_msrs_present(pre, feature_msrs@) {
                            assert forall|k: int| 0 <= k < next.len() implies #[trigger] find_msr(
                                feature_msrs@,
                                next[k].0.0,
                            ) is Some by {
                                if k < pre.len() {
                                    assert(find_msr(feature_msrs@, pre[k].0.0) is Some);
                                }
                            }
                        } else {
                            let k = choose|k: int| 0 <= k < pre.len() && !(#[trigger] find_msr(feature_msrs@, pre[k].0.0) is Some);
                            assert(!(find_msr(feature_msrs@, next[k].0.0) is Some));
                        }
                    }
                },
            }
            i = i + 1;
        }
        assert(adjustments@.take(i as int) == adjustments@);
        if missing_msr {
            Err(ProfileError::CpuProfileMissingMsr)
        } else {
            Ok(output_feature_msrs)
        }
    }
}

proof fn lemma_find_msr_contained(msrs: Seq<MsrEntry>, index: u32)
    ensures
        find_msr(msrs, index) matches Some(e) ==> msrs.contains(e) && e.index == index,
    decreases msrs.len(),
{
    if msrs.len() > 0 && msrs[0].index != index {
        lemma_find_msr_contained(msrs.drop_first(), index);
        if find_msr(msrs, index) is Some {
            let e = find_msr(msrs, index)->0;
            let k = choose|k: int| 0 <= k < msrs.drop_first().len() && msrs.drop_first()[k] == e;
            assert(msrs[k + 1] == e);
        }
    } else if msrs.len() > 0 {
        assert(msrs[0] == msrs[0]);
    }
}

/// Adjustments that keep every bit (a full mask and no replacements) hand
/// back the host's entries unchanged: every adjusted entry is an entry of
/// `msrs`, for the MSR that the adjustment names.
pub proof fn lemma_identity_adjustments(
    adjustments: Seq<(RegisterAddress, FeatureMsrAdjustment)>,
    msrs: Seq<MsrEntry>,
)
    requires
        forall|i: int|
            0 <= i < adjustments.len() ==> (#[trigger] adjustments[i]).1.mask == u64::MAX
                && adjustments[i].1.replacements == 0,
    ensures
        forall|k: int|
            0 <= k < adjusted_msrs(adjustments, msrs).len() ==> msrs.contains(
                #[trigger] adjusted_msrs(adjustments, msrs)[k],
            ),
    decreases adjustments.len(),
{
    if adjustments.len() > 0 {
        let d = adjustments.drop_last();
        assert forall|i: int| 0 <= i < d.len() implies (#[trigger] d[i]).1.mask == u64::MAX
            && d[i].1.replacements == 0 by {
            assert(d[i] == adjustments[i]);
        }
        lemma_identity_adjustments(d, msrs);
        let (reg, adjustment) = adjustments.last();
        assert(adjustments[adjustments.len() - 1].1.mask == u64::MAX);
        lemma_find_msr_contained(msrs, reg.0);
        let prev = adjusted_msrs(d, msrs);
        if find_msr(msrs, reg.0) is Some {
            let e = find_msr(msrs, reg.0)->0;
            let data = e.data;
            assert((0xffff_ffff_ffff_ffffu64 & data) | 0u64 == data) by (bit_vector);
            assert(MsrEntry { index: e.index, data: adjusted_value(adjustment, e.data) } == e);
            let all = adjusted_msrs(adjustments, msrs);
            assert forall|k: int| 0 <= k < all.len() implies msrs.contains(#[trigger] all[k]) by {
                if k < prev.len() {
                    assert(all[k] == prev[k]);
                }
            }
        }
    }
}

/// The register addresses of `adjustments`, in order, for which `msrs` has
/// no entry.
pub open spec fn missing_msrs(
    adjustments: Seq<(RegisterAddress, FeatureMsrAdjustment)>,
    msrs: Seq<MsrEntry>,
) -> Seq<u32>
    decreases adjustments.len(),
{
    if adjustments.len() == 0 {
        Seq::empty()
    } else {
        let prev = missing_msrs(adjustments.drop_last(), msrs);
        let a = adjustments.last().0.0;
        if find_msr(msrs, a) is None {
            prev.push(a)
        } else {
            prev
        }
    }
}

/// The register addresses of `adjustments` that `feature_msrs` has no entry
/// for, in the order of `adjustments`: the MSRs for which
/// [`FeatureMsrAdjustment::adjust_to`] reports `CpuProfileMissingMsr`.
pub fn missing_feature_msrs(
    adjustments: &[(RegisterAddress, FeatureMsrAdjustment)],
    feature_msrs: &[MsrEntry],
) -> (r: Vec<u32>)
    ensures
        r@ == missing_msrs(adjustments@, feature_msrs@),
{
    let mut missing: Vec<u32> = Vec::new();
    let mut i: usize = 0;
    while i < adjustments.len()
        invariant
            i <= adjustments@.len(),
            missing@ == missing_msrs(adjustments@.take(i as int), feature_msrs@),
        decreases adjustments@.len() - i,
    {
        let a = adjustments[i].0.0;
        proof {
            assert(adjustments@.take(i + 1).drop_last() == adjustments@.take(i as int));
            assert(adjustments@.take(i + 1).last() == adjustments@[i as int]);
        }
        if find_entry(feature_msrs, a).is_none() {
            missing.push(a);
        }
        i = i + 1;
    }
    assert(adjustments@.take(i as int) == adjustments@);
    missing
}

/// Bit by bit, an adjusted value keeps the host's bit where the mask is set,
/// takes the replacements' bit where that is set, and is clear elsewhere.
proof fn lemma_adjusted_value_bits(a: FeatureMsrAdjustment, d: u64)
    ensures
        forall|k: u64|
            k < 64 ==> #[trigger] bit_set(adjusted_value(a, d), k) == ((bit_set(a.mask, k) && bit_set(d, k))
                || bit_set(a.replacements, k)),
{
    assert forall|k: u64|
        k < 64 implies #[trigger] bit_set(adjusted_value(a, d), k) == ((bit_set(a.mask, k) && bit_set(
            d,
            k,
        )) || bit_set(a.replacements, k)) by {
        let m = a.mask;
        let r = a.replacements;
        assert((((m & d) | r) >> k) & 1 == 1 <==> ((((m >> k) & 1 == 1) && ((d >> k) & 1 == 1)) || ((r
            >> k) & 1 == 1))) by (bit_vector)
            requires
                k < 64,
        ;
    }
}

/// Adjusting the host's feature MSRs to a profile whose MSRs the host all
/// reports gives one entry per adjustment, in the order of the adjustments,
/// each for the adjustment's MSR. Bit `k` of its value is set exactly where
/// the adjustment's replacements have bit `k` set, or its mask and the
/// host's value both have: the mask selects the host bits that pass
/// through, the replacements set bits of their own, and every bit clear in
/// both the mask and the replacements is clear.
pub proof fn lemma_adjust_to_bits(
    adjustments: Seq<(RegisterAddress, FeatureMsrAdjustment)>,
    msrs: Seq<MsrEntry>,
)
    requires
        all_adjusted_msrs_present(adjustments, msrs),
    ensures
        adjusted_msrs(adjustments, msrs).len() == adjustments.len(),
        forall|i: int|
            0 <= i < adjustments.len() ==> (#[trigger] adjusted_msrs(adjustments, msrs)[i]).index
                == adjustments[i].0.0 && msrs.contains(find_msr(msrs, adjustments[i].0.0)->0),
        forall|i: int, k: u64|
            0 <= i < adjustments.len() && k < 64 ==> #[trigger] bit_set(
                adjusted_msrs(adjustments, msrs)[i].data,
                k,
            ) == ((bit_set(adjustments[i].1.mask, k) && bit_set(
                find_msr(msrs, adjustments[i].0.0)->0.data,
                k,
            )) || bit_set(adjustments[i].1.replacements, k)),
    decreases adjustments.len(),
{
    if adjustments.len() > 0 {
        let prev = adjustments.drop_last();
        assert forall|i: int| 0 <= i < prev.len() implies #[trigger] find_msr(msrs, prev[i].0.0) is Some by {
            assert(prev[i] == adjustments[i]);
        }
        lemma_adjust_to_bits(prev, msrs);
        let last = adjustments.len() - 1;
        assert(find_msr(msrs, adjustments[last].0.0) is Some);
        lemma_find_msr_contained(msrs, adjustments[last].0.0);
        let host = find_msr(msrs, adjustments[last].0.0)->0;
        lemma_adjusted_value_bits(adjustments[last].1, host.data);
        assert forall|i: int| 0 <= i < adjustments.len() implies (#[trigger] adjusted_msrs(
            adjustments,
            msrs,
        )[i]).index == adjustments[i].0.0 && msrs.contains(find_msr(msrs, adjustments[i].0.0)->0) by {
            if i < last {
                assert(prev[i] == adjustments[i]);
                assert(adjusted_msrs(adjustments, msrs)[i] == adjusted_msrs(prev, msrs)[i]);
            }
        }
        assert forall|i: int, k: u64| 0 <= i < adjustments.len() && k < 64 implies #[trigger] bit_set(
            adjusted_msrs(adjustments, msrs)[i].data,
            k,
        ) == ((bit_set(adjustments[i].1.mask, k) && bit_set(find_msr(msrs, adjustments[i].0.0)->0.data, k))
            || bit_set(adjustments[i].1.replacements, k)) by {
            if i < last {
                assert(prev[i] == adjustments[i]);
                assert(adjusted_msrs(adjustments, msrs)[i] == adjusted_msrs(prev, msrs)[i]);
                assert(bit_set(adjusted_msrs(prev, msrs)[i].data, k) == ((bit_set(prev[i].1.mask, k)
                    && bit_set(find_msr(msrs, prev[i].0.0)->0.data, k)) || bit_set(prev[i].1.replacements, k)));
            }
        }
    }
}

} // verus!
