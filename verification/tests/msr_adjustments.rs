use migration_profile::hypervisor_data::MsrEntry;
use migration_profile::msr_adjustments::{
    missing_feature_msrs, FeatureMsrAdjustment, ProfileError, RegisterAddress,
};

#[test]
fn required_msr_updates_expected_adjustments() {
    const IA32_BIOS_SIGN_ID: u32 = 0x8b;
    const IA32_VMX_MISC: u32 = 0x485;

    let host_feature_msrs = [
        MsrEntry {
            index: IA32_BIOS_SIGN_ID,
            data: 1 << 42,
        },
        MsrEntry {
            index: IA32_VMX_MISC,
            data: 0x20000165,
        },
    ];

    let bios_sign_id_msr_adjustment = (
        RegisterAddress(IA32_BIOS_SIGN_ID),
        FeatureMsrAdjustment {
            replacements: 0,
            mask: 0xffffffff00000000,
        },
    );

    let vmx_misc_msr_adjustment = (
        RegisterAddress(IA32_VMX_MISC),
        FeatureMsrAdjustment {
            replacements: 0x20000065,
            mask: 0,
        },
    );

    let adjustments = vec![bios_sign_id_msr_adjustment, vmx_misc_msr_adjustment.clone()];

    let required_updates =
        FeatureMsrAdjustment::adjust_to(&adjustments, &host_feature_msrs).unwrap();

    assert_eq!(required_updates.len(), host_feature_msrs.len());

    for feat_msr in required_updates {
        match feat_msr.index {
            IA32_BIOS_SIGN_ID => {
                assert_eq!(feat_msr.data, host_feature_msrs[0].data);
            }
            IA32_VMX_MISC => {
                assert_eq!(feat_msr.data, vmx_misc_msr_adjustment.1.replacements);
            }
            _ => unreachable!(),
        }
    }
}

#[test]
fn failure_on_missing_feature_msr() {
    let host: Vec<MsrEntry> = (0..20u32)
        .map(|i| MsrEntry { index: i * 3 + 1, data: (i as u64) << 7 | 5 })
        .collect();
    let adjustments: Vec<(RegisterAddress, FeatureMsrAdjustment)> = host
        .iter()
        .map(|e| (RegisterAddress(e.index), FeatureMsrAdjustment { replacements: 0, mask: u64::MAX }))
        .collect();

    let updates = FeatureMsrAdjustment::adjust_to(&adjustments, &host).unwrap();
    assert_eq!(updates, host);

    let mut fewer = host.clone();
    fewer.remove(7);
    assert_eq!(
        FeatureMsrAdjustment::adjust_to(&adjustments, &fewer).unwrap_err(),
        ProfileError::CpuProfileMissingMsr
    );
}

#[test]
fn adjust_to_uses_first_matching_entry_and_ignores_unnamed() {
    let host = [
        MsrEntry { index: 1, data: 0xf0 },
        MsrEntry { index: 2, data: 0xff },
        MsrEntry { index: 1, data: 0x0f },
    ];
    let adjustments = [(RegisterAddress(1), FeatureMsrAdjustment { replacements: 0x100, mask: 0x30 })];
    let updates = FeatureMsrAdjustment::adjust_to(&adjustments, &host).unwrap();
    assert_eq!(updates, vec![MsrEntry { index: 1, data: 0x130 }]);
}

#[test]
fn missing_feature_msrs_in_adjustment_order() {
    let adj = FeatureMsrAdjustment { mask: 0, replacements: 0 };
    let adjustments = [
        (RegisterAddress(0x48b), adj),
        (RegisterAddress(0x10a), adj),
        (RegisterAddress(0x8b), adj),
    ];
    let host = [MsrEntry { index: 0x10a, data: 3 }];
    assert_eq!(missing_feature_msrs(&adjustments, &host), vec![0x48b, 0x8b]);
    assert_eq!(
        FeatureMsrAdjustment::adjust_to(&adjustments, &host),
        Err(ProfileError::CpuProfileMissingMsr)
    );
    assert!(missing_feature_msrs(&adjustments[1..2], &host).is_empty());
}
