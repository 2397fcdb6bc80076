use migration_profile::cpu_profile_generation::{
    amx_allows_cpuid_query, is_white_space, AmxEnableOutcome,
    cpu_brand_string_bytes, generate_cpuid_profile_data_with, overwrite_brand_string, profile_file_name,
    sort_entries, GenerationError,
};
use migration_profile::cpuid_definitions::{
    CpuidDefinitions, CpuidReg, Parameters, ProfilePolicy, ValueDefinition, ValueDefinitions,
};
use migration_profile::hypervisor_data::{CpuIdEntry, CpuVendor, HypervisorType, MsrEntry};
use migration_profile::intel_architectural_msrs::{
    FORBIDDEN_IA32_MSR_RANGES, IA32_TIME_STAMP_COUNTER, PERMITTED_IA32_MSRS,
};
use migration_profile::msr_adjustments::RegisterAddress;
use migration_profile::msr_definitions::{
    assert_not_denied_cpuid_feature, profile_permitted_kvm_msrs, profile_unpermitted_kvm_msrs, MsrDefinitions,
    ProfilePolicy as MsrPolicy, ValueDefinition as MsrValueDefinition,
    ValueDefinitions as MsrValueDefinitions,
};
use migration_profile::msr_profile_generation::{generate_msr_profile_data_with, MsrProfileDataParams};

fn leak<T>(v: Vec<T>) -> &'static [T] {
    Box::leak(v.into_boxed_slice())
}

fn def(short: &'static str, bits: (u8, u8), policy: ProfilePolicy) -> ValueDefinition {
    ValueDefinition { short, description: "", bits_range: bits, policy }
}

fn entry(function: u32, index: u32, ebx: u32) -> CpuIdEntry {
    CpuIdEntry { function, index, flags: 0, eax: 0, ebx, ecx: 0, edx: 0 }
}

fn sample_definitions() -> CpuidDefinitions<2> {
    CpuidDefinitions::new([
        (
            Parameters { leaf: 0x7, sub_leaf: 0..=0, register: CpuidReg::EBX },
            ValueDefinitions::new(leak(vec![
                def("fsgsbase", (0, 0), ProfilePolicy::Inherit),
                def("tsc_adjust", (1, 1), ProfilePolicy::Static(0)),
                def("sgx", (2, 2), ProfilePolicy::Static(1)),
                def("rest", (3, 31), ProfilePolicy::Passthrough),
            ])),
        ),
        (
            Parameters { leaf: 0xd, sub_leaf: 0..=3, register: CpuidReg::EBX },
            ValueDefinitions::new(leak(vec![def("size", (0, 31), ProfilePolicy::Inherit)])),
        ),
    ])
}

#[test]
fn cpuid_definitions_lookup() {
    let defs = sample_definitions();
    let found = defs
        .get(&Parameters { leaf: 0xd, sub_leaf: 1..=2, register: CpuidReg::EBX })
        .unwrap();
    assert_eq!(found.as_slice()[0].short, "size");
    assert!(defs
        .get(&Parameters { leaf: 0xd, sub_leaf: 1..=4, register: CpuidReg::EBX })
        .is_none());
    assert!(defs
        .get(&Parameters { leaf: 0x7, sub_leaf: 0..=0, register: CpuidReg::EAX })
        .is_none());

    let leaf7 = defs
        .get(&Parameters { leaf: 0x7, sub_leaf: 0..=0, register: CpuidReg::EBX })
        .unwrap();
    assert_eq!(leaf7.find_bit::<1>().unwrap().short, "tsc_adjust");
    assert_eq!(leaf7.find_bit::<17>().unwrap().short, "rest");
    assert!(ValueDefinitions::new(leak(vec![def("a", (0, 3), ProfilePolicy::Inherit)]))
        .find_bit::<4>()
        .is_none());
    assert_eq!(defs.as_slice().len(), 2);
}

#[test]
fn not_denied_cpuid_feature_check() {
    let defs = sample_definitions();
    let p = Parameters { leaf: 0x7, sub_leaf: 0..=0, register: CpuidReg::EBX };
    // Bit 0 is inherited and bit 2 is forced to 1: neither is denied.
    assert_not_denied_cpuid_feature::<2, 0>(&defs, &p);
    assert_not_denied_cpuid_feature::<2, 2>(&defs, &p);
    let sub_leaves = Parameters { leaf: 0xd, sub_leaf: 1..=2, register: CpuidReg::EBX };
    assert_not_denied_cpuid_feature::<2, 31>(&defs, &sub_leaves);
}

#[test]
fn cpuid_profile_adjustments() {
    let defs = sample_definitions();
    let empty: CpuidDefinitions<0> = CpuidDefinitions::new([]);
    let cpuid = vec![entry(0x7, 0, 0xffff_fff3), entry(0xd, 1, 0x240), entry(0xd, 2, 0x100)];
    let data = generate_cpuid_profile_data_with(
        HypervisorType::Kvm,
        CpuVendor::Intel,
        &cpuid,
        &defs,
        &empty,
    );
    assert_eq!(data.hypervisor, HypervisorType::Kvm);
    assert_eq!(data.cpu_vendor, CpuVendor::Intel);
    let got: Vec<(u32, u32, u32, CpuidReg, u32, u32)> = data
        .adjustments
        .iter()
        .map(|(p, a)| (p.leaf, *p.sub_leaf.start(), *p.sub_leaf.end(), p.register, a.mask, a.replacements))
        .collect();
    assert_eq!(
        got,
        vec![
            // bit 0 inherited (1), bit 1 static 0, bit 2 static 1, bits 3.. passthrough
            (0x7, 0, 0, CpuidReg::EBX, 0xffff_fff8, 0b101),
            (0xd, 0, 0, CpuidReg::EBX, 0, 0),
            (0xd, 1, 1, CpuidReg::EBX, 0, 0x240),
            (0xd, 2, 2, CpuidReg::EBX, 0, 0x100),
            (0xd, 3, 3, CpuidReg::EBX, 0, 0),
        ]
    );
}

#[test]
fn cpuid_profile_adjustments_without_host_entry() {
    let defs = sample_definitions();
    let empty: CpuidDefinitions<0> = CpuidDefinitions::new([]);
    let data = generate_cpuid_profile_data_with(HypervisorType::Kvm, CpuVendor::Intel, &[], &empty, &defs);
    let got: Vec<(u32, u32, u32, u32, u32)> = data
        .adjustments
        .iter()
        .map(|(p, a)| (p.leaf, *p.sub_leaf.start(), *p.sub_leaf.end(), a.mask, a.replacements))
        .collect();
    assert_eq!(got, vec![(0x7, 0, 0, 0xffff_fff8, 0b100), (0xd, 0, 3, 0, 0)]);
}

#[test]
fn brand_string() {
    let bytes = cpu_brand_string_bytes(CpuVendor::Intel, "Sapphire Rapids").unwrap();
    let text = b"Intel Sapphire Rapids";
    assert_eq!(&bytes[..text.len()], text);
    assert!(bytes[text.len()..].iter().all(|b| *b == 0));

    let long = "x".repeat(43);
    assert_eq!(cpu_brand_string_bytes(CpuVendor::Intel, &long).unwrap_err(), GenerationError::ProfileNameTooLong);
    let fits = "x".repeat(44);
    assert!(cpu_brand_string_bytes(CpuVendor::AMD, &fits).is_ok());
}

#[test]
fn brand_string_overwrites_and_appends() {
    let bytes = cpu_brand_string_bytes(CpuVendor::Intel, "Test").unwrap();
    let cpuid = vec![entry(0x1, 0, 5), CpuIdEntry { function: 0x80000003, index: 0, flags: 1, eax: 9, ebx: 9, ecx: 9, edx: 9 }];
    let out = overwrite_brand_string(cpuid, bytes);
    assert_eq!(out.len(), 4);
    assert_eq!(out[0], entry(0x1, 0, 5));
    let word = |k: usize| u32::from_le_bytes([bytes[4 * k], bytes[4 * k + 1], bytes[4 * k + 2], bytes[4 * k + 3]]);
    assert_eq!(
        out[1],
        CpuIdEntry { function: 0x80000003, index: 0, flags: 0, eax: word(4), ebx: word(5), ecx: word(6), edx: word(7) }
    );
    assert_eq!(out[2].function, 0x80000002);
    assert_eq!(out[2].eax, u32::from_le_bytes(*b"Inte"));
    assert_eq!(out[3].function, 0x80000004);
}

#[test]
fn sort_entries_orders_by_leaf_then_sub_leaf() {
    let cpuid = vec![entry(7, 1, 0), entry(1, 0, 0), entry(7, 0, 0), entry(0, 3, 0)];
    let sorted = sort_entries(cpuid);
    let keys: Vec<(u32, u32)> = sorted.iter().map(|e| (e.function, e.index)).collect();
    assert_eq!(keys, vec![(0, 3), (1, 0), (7, 0), (7, 1)]);
}

fn msr_def(bits: (u8, u8), policy: MsrPolicy) -> MsrValueDefinition {
    MsrValueDefinition { short: "", description: "", bits_range: bits, policy }
}

#[test]
fn msr_profile_generation() {
    let defs = MsrDefinitions::new([
        (
            RegisterAddress(0x10a),
            MsrValueDefinitions::new(leak(vec![
                msr_def((0, 0), MsrPolicy::Inherit),
                msr_def((1, 1), MsrPolicy::Static(0)),
                msr_def((2, 3), MsrPolicy::Passthrough),
                msr_def((8, 9), MsrPolicy::Static(2)),
            ])),
        ),
        (RegisterAddress(0x481), MsrValueDefinitions::new(leak(vec![msr_def((0, 63), MsrPolicy::Inherit)]))),
        (RegisterAddress(0x8b), MsrValueDefinitions::new(leak(vec![msr_def((0, 63), MsrPolicy::Deny)]))),
        (RegisterAddress(0x999), MsrValueDefinitions::new(leak(vec![msr_def((0, 63), MsrPolicy::Inherit)]))),
    ]);
    let supported_feature_msrs = [
        MsrEntry { index: 0x10a, data: 0xf003 },
        MsrEntry { index: 0x481, data: 7 },
        MsrEntry { index: 0x8b, data: 1 },
    ];
    let kvm = profile_permitted_kvm_msrs();
    let supported_msrs = [0x10, 0x3b, 0x4b564d00, 0x55, 0x60, 0x70];
    let params = MsrProfileDataParams {
        hypervisor_type: HypervisorType::Kvm,
        cpu_vendor: CpuVendor::Intel,
        processor_feature_msr_definitions: &defs,
        supported_feature_msrs: &supported_feature_msrs,
        supported_msrs: &supported_msrs,
        permitted_architectural_msrs: &[0x10, 0x3b, 0x1b],
        permitted_hypervisor_msrs: &kvm,
        permitted_hyperv_msrs: &[],
        non_architectural_msrs: &[0x55],
        forbidden_architectural_msrs: &[(0x60, 0x65)],
    };
    let (data, unknown) = generate_msr_profile_data_with(params).unwrap();
    assert_eq!(data.adjustments.len(), 1);
    let (reg, adj) = data.adjustments[0];
    assert_eq!(reg, RegisterAddress(0x10a));
    assert_eq!(adj.mask, 0b1100);
    // bit 0 inherited, static 2 at bit 8, reserved bits 4..=7 and 10.. inherited
    assert_eq!(adj.replacements, 0x1 | 0x200 | 0xf000);
    let permitted: Vec<u32> = data.permitted_msrs.iter().map(|r| r.0).collect();
    assert_eq!(permitted, vec![0x10, 0x3b, 0x10a, 0x481, 0x4b564d00]);
    assert_eq!(unknown, vec![0x70]);
}

#[test]
fn msr_profile_generation_unknown_feature_msr() {
    let defs = MsrDefinitions::new([(
        RegisterAddress(0x10a),
        MsrValueDefinitions::new(leak(vec![msr_def((0, 63), MsrPolicy::Inherit)])),
    )]);
    let supported_feature_msrs = [MsrEntry { index: 0x10a, data: 0 }, MsrEntry { index: 0x48b, data: 0 }];
    let params = MsrProfileDataParams {
        hypervisor_type: HypervisorType::Kvm,
        cpu_vendor: CpuVendor::Intel,
        processor_feature_msr_definitions: &defs,
        supported_feature_msrs: &supported_feature_msrs,
        supported_msrs: &[],
        permitted_architectural_msrs: &[],
        permitted_hypervisor_msrs: &[],
        permitted_hyperv_msrs: &[],
        non_architectural_msrs: &[],
        forbidden_architectural_msrs: &[],
    };
    assert_eq!(
        generate_msr_profile_data_with(params).unwrap_err(),
        GenerationError::UnknownFeatureMsr(0x48b)
    );
}

#[test]
fn profile_file_names() {
    let name: String = profile_file_name("Sapphire Rapids SP").into_iter().collect();
    assert_eq!(name, "sapphire-rapids-sp");
    let name: String = profile_file_name("A  B ").into_iter().collect();
    assert_eq!(name, "a--b-");
    let name: String = profile_file_name("Sapphire\tRapids").into_iter().collect();
    assert_eq!(name, "sapphire-rapids");
    let name: String = profile_file_name("A\u{3000}B\n").into_iter().collect();
    assert_eq!(name, "a-b-");
    let name: String = profile_file_name("ΣΊΣΥΦΟΣ Gen").into_iter().collect();
    assert_eq!(name, "σίσυφος-gen");
    let name: String = profile_file_name("").into_iter().collect();
    assert_eq!(name, "");
}

#[test]
fn msr_profile_generation_with_intel_tables() {
    assert_eq!(PERMITTED_IA32_MSRS.len(), 155);
    assert_eq!(FORBIDDEN_IA32_MSR_RANGES.len(), 341);
    assert_eq!(PERMITTED_IA32_MSRS[2], IA32_TIME_STAMP_COUNTER);
    assert_eq!(FORBIDDEN_IA32_MSR_RANGES[0], (0x6, 0x6));
    let defs: MsrDefinitions<0> = MsrDefinitions::new([]);
    let kvm = profile_permitted_kvm_msrs();
    // 0x10 and 0x4b564d00 are permitted, 0x17 lies in a forbidden range,
    // 0xc95 lies in the forbidden range 0xc91..=0xd8f, 0x5 is unknown.
    let supported_msrs = [0x5, 0x10, 0x17, 0xc95, 0x4b564d00];
    let params = MsrProfileDataParams {
        hypervisor_type: HypervisorType::Kvm,
        cpu_vendor: CpuVendor::Intel,
        processor_feature_msr_definitions: &defs,
        supported_feature_msrs: &[],
        supported_msrs: &supported_msrs,
        permitted_architectural_msrs: &PERMITTED_IA32_MSRS[..],
        permitted_hypervisor_msrs: &kvm,
        permitted_hyperv_msrs: &[],
        non_architectural_msrs: &[],
        forbidden_architectural_msrs: &FORBIDDEN_IA32_MSR_RANGES[..],
    };
    let (data, unknown) = generate_msr_profile_data_with(params).unwrap();
    let permitted: Vec<u32> = data.permitted_msrs.iter().map(|r| r.0).collect();
    assert_eq!(permitted, vec![0x10, 0x4b564d00]);
    assert_eq!(unknown, vec![0x5]);
}

#[test]
fn kvm_msr_lists() {
    assert_eq!(
        profile_permitted_kvm_msrs(),
        vec![
            0x4b564d00, 0x4b564d01, 0x4b564d02, 0x4b564d03, 0x4b564d04, 0x4b564d05, 0x4b564d06,
            0x4b564d07, 0x4b564d08
        ]
    );
    assert_eq!(profile_unpermitted_kvm_msrs(), vec![0x11, 0x12]);
}

#[test]
fn hyperv_msrs_permitted_regardless_of_support() {
    let defs: MsrDefinitions<0> = MsrDefinitions::new([]);
    let params = MsrProfileDataParams {
        hypervisor_type: HypervisorType::Kvm,
        cpu_vendor: CpuVendor::Intel,
        processor_feature_msr_definitions: &defs,
        supported_feature_msrs: &[],
        supported_msrs: &[0x10],
        permitted_architectural_msrs: &[0x3b],
        permitted_hypervisor_msrs: &[],
        permitted_hyperv_msrs: &[0x4000_0001, 0x4000_0000],
        non_architectural_msrs: &[0x10],
        forbidden_architectural_msrs: &[],
    };
    let (data, unknown) = generate_msr_profile_data_with(params).unwrap();
    let permitted: Vec<u32> = data.permitted_msrs.iter().map(|r| r.0).collect();
    assert_eq!(permitted, vec![0x4000_0000, 0x4000_0001]);
    assert!(unknown.is_empty());
}

#[test]
fn amx_outcomes() {
    assert!(amx_allows_cpuid_query(AmxEnableOutcome::Enabled));
    assert!(amx_allows_cpuid_query(AmxEnableOutcome::NotSupported));
    assert!(!amx_allows_cpuid_query(AmxEnableOutcome::TileRequestFailed));
}

fn empty_msr_params<'a>(
    defs: &'a MsrDefinitions<1>,
    supported_feature_msrs: &'a [MsrEntry],
) -> MsrProfileDataParams<'a, 1> {
    MsrProfileDataParams {
        hypervisor_type: HypervisorType::Kvm,
        cpu_vendor: CpuVendor::Intel,
        processor_feature_msr_definitions: defs,
        supported_feature_msrs,
        supported_msrs: &[],
        permitted_architectural_msrs: &[],
        permitted_hypervisor_msrs: &[],
        permitted_hyperv_msrs: &[],
        non_architectural_msrs: &[],
        forbidden_architectural_msrs: &[],
    }
}

#[test]
fn msr_value_with_inverted_bit_range_names_no_bit() {
    let defs = MsrDefinitions::new([(
        RegisterAddress(0x10a),
        MsrValueDefinitions::new(leak(vec![
            msr_def((5, 2), MsrPolicy::Passthrough),
            msr_def((0, 0), MsrPolicy::Static(1)),
        ])),
    )]);
    let supported_feature_msrs = [MsrEntry { index: 0x10a, data: 0xf0 }];
    let (data, _) = generate_msr_profile_data_with(empty_msr_params(&defs, &supported_feature_msrs)).unwrap();
    let (_, adj) = data.adjustments[0];
    assert_eq!(adj.mask, 0);
    // bit 0 static 1; every other bit is reserved and inherited from the host
    assert_eq!(adj.replacements, 0xf1);
}

#[test]
fn msr_reported_twice_next_to_unknown_one() {
    let defs = MsrDefinitions::new([(
        RegisterAddress(0x10a),
        MsrValueDefinitions::new(leak(vec![msr_def((0, 63), MsrPolicy::Inherit)])),
    )]);
    let supported_feature_msrs = [
        MsrEntry { index: 0x10a, data: 0 },
        MsrEntry { index: 0x10a, data: 0 },
        MsrEntry { index: 0x48b, data: 0 },
    ];
    assert_eq!(
        generate_msr_profile_data_with(empty_msr_params(&defs, &supported_feature_msrs)).unwrap_err(),
        GenerationError::UnknownFeatureMsr(0x48b)
    );
}

#[test]
fn white_space_matches_the_standard_library() {
    for c in (0u32..=0x10ffff).filter_map(char::from_u32) {
        assert_eq!(is_white_space(c), c.is_whitespace(), "{:#x}", c as u32);
    }
}
