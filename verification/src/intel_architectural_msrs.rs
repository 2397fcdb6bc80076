//! The Intel architectural MSRs that CPU profiles may permit, and those
//! that no CPU profile permits.
use vstd::prelude::*;

verus! {

pub const IA32_P5_MC_ADDR: u32 = 0x0;

pub const IA32_P5_MC_TYPE: u32 = 0x1;

pub const IA32_TIME_STAMP_COUNTER: u32 = 0x10;

pub const IA32_APIC_BASE: u32 = 0x1b;

/// (R/O)
pub const IA32_BARRIER: u32 = 0x2f;

/// Control Features (R/W)
pub const IA32_FEATURE_CONTROL: u32 = 0x3a;

/// Per Logical Processor TSC Adjust (R/Write to clear)
pub const IA32_TSC_ADJUST: u32 = 0x3b;

/// Speculation Control (R/W).
pub const IA32_SPEC_CTRL: u32 = 0x48;

/// Prediction Command (WO)
pub const IA32_PRED_CMD: u32 = 0x49;

pub const IA32_SMM_MONITOR_CTL: u32 = 0x9b;

/// xAPIC Disable Status (R/O)
pub const IA32_XAPIC_DISABLE_STATUS: u32 = 0xbd;

pub const IA32_UMWAIT_CONTROL: u32 = 0xe1;

/// MTRR Capability (R/O)
pub const IA32_MTRRCAP: u32 = 0xfe;

/// Flush Command (WO)
pub const IA32_FLUSH_CMD: u32 = 0x10b;

/// SYSENTER_CS_MSR (R/W)
pub const IA32_SYSENTER_CS: u32 = 0x174;

/// SYSENTER_ESP_MSR (R/W)
pub const IA32_SYSENTER_ESP: u32 = 0x175;

/// SYSENTER_ESP_MSR (R/W)
pub const IA32_SYSENTER_EIP: u32 = 0x176;

/// Overclocking Status (R/O)
pub const IA32_OVERCLOCKING_STATUS: u32 = 0x195;

pub const IA32_CLOCK_MODULATION: u32 = 0x19a;

pub const IA32_MISC_ENABLE: u32 = 0x1a0;

/// The Intel IA32 MSRs that CPU profiles may permit and that KVM does not
/// treat as MSR-based feature indices (Intel SDM Vol. 4, Table 2.2).
pub const PERMITTED_IA32_MSRS: [u32; 155] = [
    IA32_P5_MC_ADDR,
    IA32_P5_MC_TYPE,
    IA32_TIME_STAMP_COUNTER,
    IA32_APIC_BASE,
    IA32_BARRIER,
    IA32_FEATURE_CONTROL,
    IA32_TSC_ADJUST,
    IA32_SPEC_CTRL,
    IA32_PRED_CMD,
    0x82,
    0x83,
    0x84,
    0x85,
    0x86,
    IA32_SMM_MONITOR_CTL,
    IA32_XAPIC_DISABLE_STATUS,
    IA32_UMWAIT_CONTROL,
    IA32_MTRRCAP,
    IA32_FLUSH_CMD,
    IA32_SYSENTER_CS,
    IA32_SYSENTER_ESP,
    IA32_SYSENTER_EIP,
    IA32_OVERCLOCKING_STATUS,
    IA32_CLOCK_MODULATION,
    IA32_MISC_ENABLE,
    0x1c4,
    0x1c5,
    0x1f2,
    0x1f3,
    0x1f8,
    0x1f9,
    0x1fa,
    0x200,
    0x201,
    0x202,
    0x203,
    0x204,
    0x205,
    0x206,
    0x207,
    0x208,
    0x209,
    0x20a,
    0x20b,
    0x20c,
    0x20d,
    0x20e,
    0x20f,
    0x210,
    0x211,
    0x212,
    0x213,
    0x250,
    0x258,
    0x259,
    0x268,
    0x269,
    0x26a,
    0x26b,
    0x26c,
    0x26d,
    0x26e,
    0x26f,
    0x277,
    0x2ff,
    0x345,
    0x480,
    0x481,
    0x482,
    0x483,
    0x484,
    0x485,
    0x486,
    0x487,
    0x488,
    0x489,
    0x48a,
    0x48b,
    0x48c,
    0x48d,
    0x48e,
    0x48f,
    0x490,
    0x491,
    0x492,
    0x493,
    0x6a0,
    0x6a2,
    0x6a4,
    0x6a5,
    0x6a6,
    0x6a7,
    0x6a8,
    0x6e0,
    0x775,
    0x7a5,
    0x802,
    0x803,
    0x808,
    0x80a,
    0x80b,
    0x80d,
    0x80f,
    0x810,
    0x811,
    0x812,
    0x813,
    0x814,
    0x815,
    0x816,
    0x817,
    0x818,
    0x819,
    0x81a,
    0x81b,
    0x81c,
    0x81d,
    0x81e,
    0x81f,
    0x820,
    0x821,
    0x822,
    0x823,
    0x824,
    0x825,
    0x826,
    0x827,
    0x828,
    0x82f,
    0x830,
    0x832,
    0x833,
    0x834,
    0x835,
    0x836,
    0x837,
    0x838,
    0x839,
    0x83e,
    0x83f,
    0xc88,
    0xc89,
    0xd93,
    0xda0,
    0x1406,
    0x1b01,
    0xc0000080,
    0xc0000081,
    0xc0000082,
    0xc0000083,
    0xc0000084,
    0xc0000100,
    0xc0000101,
    0xc0000102,
    0xc0000103,
];

/// Ranges (bounds included) of Intel architectural MSR addresses that no CPU
/// profile permits and that KVM does not treat as MSR-based feature indices.
pub const FORBIDDEN_IA32_MSR_RANGES: [(u32, u32); 341] = [
    (0x6, 0x6),  // IA32_MONITOR_FILTER_SIZE
    (0x17, 0x17),  // IA32_PLATFORM_ID
    (0x4e, 0x4e),  // IA32_PPIN_CTL
    (0x4f, 0x4f),  // IA32_PPIN
    (0x79, 0x79),  // IA32_BIOS_UPDT_TRIG
    (0x7a, 0x7a),  // IA32_FEATURE_ACTIVATION
    (0x7b, 0x7b),  // IA32_MCU_ENUMERATION
    (0x7c, 0x7c),  // IA32_MCU_STATUS
    (0x87, 0x87),  // IA32_MKTME_KEYID_PARTITIONING
    (0x8c, 0x8c),  // IA32_SGXLEPUBKEYHASH0
    (0x8d, 0x8d),  // IA32_SGXLEPUBKEYHASH1
    (0x8e, 0x8e),  // IA32_SGXLEPUBKEYHASH2
    (0x8f, 0x8f),  // IA32_SGXLEPUBKEYHASH3
    (0x90, 0x90),  // IA32_SGXLEPUBKEYHASH4
    (0x91, 0x91),  // IA32_SGXLEPUBKEYHASH5
    (0x9e, 0x9e),  // IA32_SMBASE
    (0xbc, 0xbc),  // IA32_MISC_PACKAGE_CTLS
    (0xc1, 0xc1),  // IA32_PMC0
    (0xc2, 0xc2),  // IA32_PMC1
    (0xc3, 0xc3),  // IA32_PMC2
    (0xc4, 0xc4),  // IA32_PMC3
    (0xc5, 0xc5),  // IA32_PMC4
    (0xc6, 0xc6),  // IA32_PMC5
    (0xc7, 0xc7),  // IA32_PMC6
    (0xc8, 0xc8),  // IA32_PMC7
    (0xc9, 0xc9),  // IA32_PMC8
    (0xca, 0xca),  // IA32_PMC9
    (0xcf, 0xcf),  // IA32_CORE_CAPABILITIES
    (0xe7, 0xe7),  // IA32_MPERF
    (0xe8, 0xe8),  // IA32_APERF
    (0x10f, 0x10f),  // IA32_TSX_FORCE_ABORT
    (0x122, 0x122),  // IA32_TSX_CTRL
    (0x179, 0x179),  // IA32_MCG_CAP
    (0x17a, 0x17a),  // IA32_MCG_STATUS
    (0x17b, 0x17b),  // IA32_MCG_CTL
    (0x186, 0x186),  // IA32_PERFEVTSEL0
    (0x187, 0x187),  // IA32_PERFEVTSEL1
    (0x188, 0x188),  // IA32_PERFEVTSEL2
    (0x189, 0x189),  // IA32_PERFEVTSEL3
    (0x18a, 0x18a),  // IA32_PERFEVTSEL4
    (0x18b, 0x18b),  // IA32_PERFEVTSEL5
    (0x18c, 0x18c),  // IA32_PERFEVTSEL6
    (0x18d, 0x18d),  // IA32_PERFEVTSEL7
    (0x18e, 0x18e),  // IA32_PERFEVTSEL8
    (0x18f, 0x18f),  // IA32_PERFEVTSEL9
    (0x198, 0x198),  // IA32_PERF_STATUS
    (0x199, 0x199),  // IA32_PERF_CTL
    (0x19b, 0x19b),  // IA32_THERM_INTERRUPT
    (0x19c, 0x19c),  // IA32_THERM_STATUS
    (0x1b0, 0x1b0),  // IA32_ENERGY_PERF_BIAS
    (0x1b1, 0x1b1),  // IA32_PACKAGE_THERM_STATUS
    (0x1b2, 0x1b2),  // IA32_PACKAGE_THERM_INTERRUPT
    (0x1d9, 0x1d9),  // IA32_DEBUGCTL
    (0x1dd, 0x1dd),  // IA32_LER_FROM_IP
    (0x1de, 0x1de),  // IA32_LER_TO_IP
    (0x1e0, 0x1e0),  // IA32_LER_INFO
    (0x280, 0x29f),  // IA32_MC_I_CTL2
    (0x2dc, 0x2dc),  // IA32_INTEGRITY_STATUS
    (0x309, 0x30f),  // IA32_FIXED_CTRI
    (0x38d, 0x38d),  // IA32_FIXED_CTR_CTRL
    (0x38e, 0x38e),  // IA32_PERF_GLOBAL_STATUS
    (0x38f, 0x38f),  // IA32_PERF_GLOBAL_CTRL
    (0x390, 0x390),  // IA32_PERF_GLOBAL_STATUS_RESET
    (0x391, 0x391),  // IA32_PERF_GLOBAL_STATUS_SET
    (0x392, 0x392),  // IA32_PERF_GLOBAL_INUSE
    (0x3f1, 0x3f1),  // IA32_PEBS_ENABLE
    (0x400, 0x400),  // IA32_MC0_CTL
    (0x401, 0x401),  // IA32_MC0_STATUS
    (0x402, 0x402),  // IA32_MC0_ADDR
    (0x403, 0x403),  // IA32_MC0_MISC
    (0x404, 0x404),  // IA32_MC1_CTL
    (0x405, 0x405),  // IA32_MC1_STATUS
    (0x406, 0x406),  // IA32_MC1_ADDR
    (0x407, 0x407),  // IA32_MC1_MISC
    (0x408, 0x408),  // IA32_MC2_CTL
    (0x409, 0x409),  // IA32_MC2_STATUS
    (0x40a, 0x40a),  // IA32_MC2_ADDR
    (0x40b, 0x40b),  // IA32_MC2_MISC
    (0x40c, 0x40c),  // IA32_MC3_CTL
    (0x40d, 0x40d),  // IA32_MC3_STATUS
    (0x40e, 0x40e),  // IA32_MC3_ADDR1
    (0x40f, 0x40f),  // IA32_MC3_MISC
    (0x410, 0x410),  // IA32_MC4_CTL
    (0x411, 0x411),  // IA32_MC4_STATUS
    (0x412, 0x412),  // IA32_MC4_ADDR
    (0x413, 0x413),  // IA32_MC4_MISC
    (0x414, 0x414),  // IA32_MC5_CTL
    (0x415, 0x415),  // IA32_MC5_STATUS
    (0x416, 0x416),  // IA32_MC5_ADDR
    (0x417, 0x417),  // IA32_MC5_MISC
    (0x418, 0x418),  // IA32_MC6_CTL
    (0x419, 0x419),  // IA32_MC6_STATUS
    (0x41a, 0x41a),  // IA32_MC6_ADDR1
    (0x41b, 0x41b),  // IA32_MC6_MISC
    (0x41c, 0x41c),  // IA32_MC7_CTL
    (0x41d, 0x41d),  // IA32_MC7_STATUS
    (0x41e, 0x41e),  // IA32_MC7_ADDR
    (0x41f, 0x41f),  // IA32_MC7_MISC
    (0x420, 0x420),  // IA32_MC8_CTL
    (0x421, 0x421),  // IA32_MC8_STATUS
    (0x422, 0x422),  // IA32_MC8_ADDR
    (0x423, 0x423),  // IA32_MC8_MISC
    (0x424, 0x424),  // IA32_MC9_CTL
    (0x425, 0x425),  // IA32_MC9_STATUS
    (0x426, 0x426),  // IA32_MC9_ADDR
    (0x427, 0x427),  // IA32_MC9_MISC
    (0x428, 0x428),  // IA32_MC10_CTL
    (0x429, 0x429),  // IA32_MC10_STATUS
    (0x42a, 0x42a),  // IA32_MC10_ADDR
    (0x42b, 0x42b),  // IA32_MC10_MISC
    (0x42c, 0x42c),  // IA32_MC11_CTL
    (0x42d, 0x42d),  // IA32_MC11_STATUS
    (0x42e, 0x42e),  // IA32_MC11_ADDR
    (0x42f, 0x42f),  // IA32_MC11_MISC
    (0x430, 0x430),  // IA32_MC12_CTL
    (0x431, 0x431),  // IA32_MC12_STATUS
    (0x432, 0x432),  // IA32_MC12_ADDR
    (0x433, 0x433),  // IA32_MC12_MISC
    (0x434, 0x434),  // IA32_MC13_CTL
    (0x435, 0x435),  // IA32_MC13_STATUS
    (0x436, 0x436),  // IA32_MC13_ADDR
    (0x437, 0x437),  // IA32_MC13_MISC
    (0x438, 0x438),  // IA32_MC14_CTL
    (0x439, 0x439),  // IA32_MC14_STATUS
    (0x43a, 0x43a),  // IA32_MC14_ADDR
    (0x43b, 0x43b),  // IA32_MC14_MISC
    (0x43c, 0x43c),  // IA32_MC15_CTL
    (0x43d, 0x43d),  // IA32_MC15_STATUS
    (0x43e, 0x43e),  // IA32_MC15_ADDR
    (0x43f, 0x43f),  // IA32_MC15_MISC
    (0x440, 0x440),  // IA32_MC16_CTL
    (0x441, 0x441),  // IA32_MC16_STATUS
    (0x442, 0x442),  // IA32_MC16_ADDR
    (0x443, 0x443),  // IA32_MC16_MISC
    (0x444, 0x444),  // IA32_MC17_CTL
    (0x445, 0x445),  // IA32_MC17_STATUS
    (0x446, 0x446),  // IA32_MC17_ADDR
    (0x447, 0x447),  // IA32_MC17_MISC
    (0x448, 0x448),  // IA32_MC18_CTL
    (0x449, 0x449),  // IA32_MC18_STATUS
    (0x44a, 0x44a),  // IA32_MC18_ADDR
    (0x44b, 0x44b),  // IA32_MC18_MISC
    (0x44c, 0x44c),  // IA32_MC19_CTL
    (0x44d, 0x44d),  // IA32_MC19_STATUS
    (0x44e, 0x44e),  // IA32_MC19_ADDR
    (0x44f, 0x44f),  // IA32_MC19_MISC
    (0x450, 0x450),  // IA32_MC20_CTL
    (0x451, 0x451),  // IA32_MC20_STATUS
    (0x452, 0x452),  // IA32_MC20_ADDR
    (0x453, 0x453),  // IA32_MC20_MISC
    (0x454, 0x454),  // IA32_MC21_CTL
    (0x455, 0x455),  // IA32_MC21_STATUS
    (0x456, 0x456),  // IA32_MC21_ADDR
    (0x457, 0x457),  // IA32_MC21_MISC
    (0x458, 0x458),  // IA32_MC22_CTL
    (0x459, 0x459),  // IA32_MC22_STATUS
    (0x45a, 0x45a),  // IA32_MC22_ADDR
    (0x45b, 0x45b),  // IA32_MC22_MISC
    (0x45c, 0x45c),  // IA32_MC23_CTL
    (0x45d, 0x45d),  // IA32_MC23_STATUS
    (0x45e, 0x45e),  // IA32_MC23_ADDR
    (0x45f, 0x45f),  // IA32_MC23_MISC
    (0x460, 0x460),  // IA32_MC24_CTL
    (0x461, 0x461),  // IA32_MC24_STATUS
    (0x462, 0x462),  // IA32_MC24_ADDR
    (0x463, 0x463),  // IA32_MC24_MISC
    (0x464, 0x464),  // IA32_MC25_CTL
    (0x465, 0x465),  // IA32_MC25_STATUS
    (0x466, 0x466),  // IA32_MC25_ADDR
    (0x467, 0x467),  // IA32_MC25_MISC
    (0x468, 0x468),  // IA32_MC26_CTL
    (0x469, 0x469),  // IA32_MC26_STATUS
    (0x46a, 0x46a),  // IA32_MC26_ADDR
    (0x46b, 0x46b),  // IA32_MC26_MISC
    (0x46c, 0x46c),  // IA32_MC27_CTL
    (0x46d, 0x46d),  // IA32_MC27_STATUS
    (0x46e, 0x46e),  // IA32_MC27_ADDR
    (0x46f, 0x46f),  // IA32_MC27_MISC
    (0x470, 0x470),  // IA32_MC28_CTL
    (0x471, 0x471),  // IA32_MC28_STATUS
    (0x472, 0x472),  // IA32_MC28_ADDR
    (0x473, 0x473),  // IA32_MC28_MISC
    (0x474, 0x474),  // IA32_MC29_CTL
    (0x475, 0x475),  // IA32_MC29_STATUS
    (0x476, 0x476),  // IA32_MC29_ADDR
    (0x477, 0x477),  // IA32_MC29_MISC
    (0x478, 0x478),  // IA32_MC30_CTL
    (0x479, 0x479),  // IA32_MC30_STATUS
    (0x47a, 0x47a),  // IA32_MC30_ADDR
    (0x47b, 0x47b),  // IA32_MC30_MISC
    (0x47c, 0x47c),  // IA32_MC31_CTL
    (0x47d, 0x47d),  // IA32_MC31_STATUS
    (0x47e, 0x47e),  // IA32_MC31_ADDR
    (0x47f, 0x47f),  // IA32_MC31_MISC
    (0x4c1, 0x4c1),  // IA32_A_PMC0
    (0x4c2, 0x4c2),  // IA32_A_PMC1
    (0x4c3, 0x4c3),  // IA32_A_PMC2
    (0x4c4, 0x4c4),  // IA32_A_PMC3
    (0x4c5, 0x4c5),  // IA32_A_PMC4
    (0x4c6, 0x4c6),  // IA32_A_PMC5
    (0x4c7, 0x4c7),  // IA32_A_PMC6
    (0x4c8, 0x4c8),  // IA32_A_PMC7
    (0x4c9, 0x4c9),  // IA32_A_PMC8
    (0x4ca, 0x4ca),  // IA32_A_PMC9
    (0x4d0, 0x4d0),  // IA32_MCG_EXT_CTL
    (0x500, 0x500),  // IA32_SGX_SVN_STATUS
    (0x560, 0x560),  // IA32_RTIT_OUTPUT_BASE
    (0x561, 0x561),  // IA32_RTIT_OUTPUT_MASK_PTRS
    (0x570, 0x570),  // IA32_RTIT_CTL
    (0x571, 0x571),  // IA32_RTIT_STATUS
    (0x572, 0x572),  // IA32_RTIT_CR3_MATCH
    (0x580, 0x580),  // IA32_RTIT_ADDR0_A
    (0x581, 0x581),  // IA32_RTIT_ADDR0_B
    (0x582, 0x582),  // IA32_RTIT_ADDR1_A
    (0x583, 0x583),  // IA32_RTIT_ADDR1_B
    (0x584, 0x584),  // IA32_RTIT_ADDR2_A
    (0x585, 0x585),  // IA32_RTIT_ADDR2_B
    (0x586, 0x586),  // IA32_RTIT_ADDR3_A
    (0x587, 0x587),  // IA32_RTIT_ADDR3_B
    (0x600, 0x600),  // IA32_DS_AREA
    (0x6e1, 0x6e1),  // IA32_PKRS
    (0x770, 0x770),  // IA32_PM_ENABLE
    (0x771, 0x771),  // IA32_HWP_CAPABILITIES
    (0x772, 0x772),  // IA32_HWP_REQUEST_PKG
    (0x773, 0x773),  // IA32_HWP_INTERRUPT
    (0x774, 0x774),  // IA32_HWP_REQUEST
    (0x776, 0x776),  // IA32_HWP_CTL
    (0x777, 0x777),  // IA32_HWP_STATUS
    (0x7a3, 0x7a3),  // IA32_MCU_EXT_SERVICE
    (0x7a4, 0x7a4),  // IA32_MCU_ROLLBACK_MIN_ID
    (0x7b0, 0x7b0),  // IA32_ROLLBACK_SIGN_ID_0
    (0x7b1, 0x7b1),  // IA32_ROLLBACK_SIGN_ID_1
    (0x7b2, 0x7b2),  // IA32_ROLLBACK_SIGN_ID_2
    (0x7b3, 0x7b3),  // IA32_ROLLBACK_SIGN_ID_3
    (0x7b4, 0x7b4),  // IA32_ROLLBACK_SIGN_ID_4
    (0x7b5, 0x7b5),  // IA32_ROLLBACK_SIGN_ID_5
    (0x7b6, 0x7b6),  // IA32_ROLLBACK_SIGN_ID_6
    (0x7b7, 0x7b7),  // IA32_ROLLBACK_SIGN_ID_7
    (0x7b8, 0x7b8),  // IA32_ROLLBACK_SIGN_ID_8
    (0x7b9, 0x7b9),  // IA32_ROLLBACK_SIGN_ID_9
    (0x7ba, 0x7ba),  // IA32_ROLLBACK_SIGN_ID_10
    (0x7bb, 0x7bb),  // IA32_ROLLBACK_SIGN_ID_11
    (0x7bc, 0x7bc),  // IA32_ROLLBACK_SIGN_ID_12
    (0x7bd, 0x7bd),  // IA32_ROLLBACK_SIGN_ID_13
    (0x7be, 0x7be),  // IA32_ROLLBACK_SIGN_ID_14
    (0x7bf, 0x7bf),  // IA32_ROLLBACK_SIGN_ID_15
    (0x981, 0x981),  // IA32_TME_CAPABILITY
    (0x982, 0x982),  // IA32_TME_ACTIVATE
    (0x983, 0x983),  // IA32_TME_EXCLUDE_MASK
    (0x984, 0x984),  // IA32_TME_EXCLUDE_BASE
    (0x985, 0x985),  // IA32_UINTR_RR
    (0x986, 0x986),  // IA32_UINTR_HANDLER
    (0x987, 0x987),  // IA32_UINTR_STACKADJUST
    (0x988, 0x988),  // IA32_UINTR_MISC
    (0x989, 0x989),  // IA32_UINTR_PD
    (0x98a, 0x98a),  // IA32_UINTR_TT
    (0x990, 0x990),  // IA32_COPY_STATUS
    (0x991, 0x991),  // IA32_IWKEYBACKUP_STATUS
    (0x9fb, 0x9fb),  // IA32_TME_CLEAR_SAVED_KEY
    (0xc80, 0xc80),  // IA32_DEBUG_INTERFACE
    (0xc81, 0xc81),  // IA32_L3_QOS_CFG
    (0xc82, 0xc82),  // IA32_L2_QOS_CFG
    (0xc83, 0xc83),  // IA32_L3_IO_QOS_CFG
    (0xc8d, 0xc8d),  // IA32_QM_EVTSEL
    (0xc8e, 0xc8e),  // IA32_QM_CTR
    (0xc8f, 0xc8f),  // IA32_PQR_ASSOC
    (0xc90, 0xc90),  // IA32_L3_MASK_0
    (0xc91, 0xd8f),  // IA32_L3_MASK_N
    (0xd10, 0xd10),  // IA32_L2_MASK_0
    (0xd11, 0xd4f),  // IA32_L2_MASK_N
    (0xd50, 0xd5e),  // IA32_L2_QOS_EXT_BW_THRTL_I
    (0xd90, 0xd90),  // IA32_BNDCFGS
    (0xd91, 0xd91),  // IA32_COPY_LOCAL_TO_PLATFORM
    (0xd92, 0xd92),  // IA32_COPY_PLATFORM_TO_LOCAL
    (0xdb0, 0xdb0),  // IA32_PKG_HDC_CTL
    (0xdb1, 0xdb1),  // IA32_PM_CTL1
    (0xdb2, 0xdb2),  // IA32_THREAD_STALL
    (0xe00, 0xe00),  // IA32_QOS_CORE_BW_THRTL_0
    (0xe01, 0xe01),  // IA32_QOS_CORE_BW_THRTL_1
    (0x1200, 0x121f),  // IA32_LBR_X_INFO
    (0x1400, 0x1400),  // IA32_SEAMRR_BASE
    (0x1401, 0x1401),  // IA32_SEAMRR_MASK
    (0x1406, 0x57e),  // IA32_MCU_CONTROL
    (0x14ce, 0x14ce),  // IA32_LBR_CTL
    (0x14cf, 0x14cf),  // IA32_LBR_DEPTH
    (0x1500, 0x151f),  // IA32_LBR_X_FROM_IP
    (0x1600, 0x161f),  // IA32_LBR_X_TO_IP
    (0x17d0, 0x17d0),  // IA32_HW_FEEDBACK_PTR
    (0x17d1, 0x17d1),  // IA32_HW_FEEDBACK_CONFIG
    (0x17d2, 0x17d2),  // IA32_HW_FEEDBACK_THREAD_CHAR
    (0x17d4, 0x17d4),  // IA32_HW_FEEDBACK_THREAD_CONFIG
    (0x17da, 0x17da),  // IA32_HRESET_ENABLE
    (0x1900, 0x1900),  // IA32_PMC_GP0_CTR
    (0x1901, 0x1901),  // IA32_PMC_GP0_CFG_A
    (0x1903, 0x1903),  // IA32_PMC_GP0_CFG_C
    (0x1904, 0x1904),  // IA32_PMC_GP1_CTR
    (0x1905, 0x1905),  // IA32_PMC_GP1_CFG_A
    (0x1907, 0x1907),  // IA32_PMC_GP1_CFG_C
    (0x1908, 0x1908),  // IA32_PMC_GP2_CTR
    (0x1909, 0x1909),  // IA32_PMC_GP2_CFG_A
    (0x190a, 0x190a),  // IA32_PMC_GP2_CFG_B
    (0x190b, 0x190b),  // IA32_PMC_GP2_CFG_C
    (0x190c, 0x190c),  // IA32_PMC_GP3_CTR
    (0x190d, 0x190d),  // IA32_PMC_GP3_CFG_A
    (0x190e, 0x190e),  // IA32_PMC_GP3_CFG_B
    (0x190f, 0x190f),  // IA32_PMC_GP3_CFG_C
    (0x1910, 0x1910),  // IA32_PMC_GP4_CTR
    (0x1911, 0x1911),  // IA32_PMC_GP4_CFG_A
    (0x1912, 0x1912),  // IA32_PMC_GP4_CFG_B
    (0x1913, 0x1913),  // IA32_PMC_GP4_CFG_C
    (0x1914, 0x1914),  // IA32_PMC_GP5_CTR
    (0x1915, 0x1915),  // IA32_PMC_GP5_CFG_A
    (0x1916, 0x1916),  // IA32_PMC_GP5_CFG_B
    (0x1917, 0x1917),  // IA32_PMC_GP5_CFG_C
    (0x1918, 0x1918),  // IA32_PMC_GP6_CTR
    (0x1919, 0x1919),  // IA32_PMC_GP6_CFG_A
    (0x191a, 0x191a),  // IA32_PMC_GP6_CFG_B
    (0x191b, 0x191b),  // IA32_PMC_GP6_CFG_C
    (0x191c, 0x191c),  // IA32_PMC_GP7_CTR
    (0x191d, 0x191d),  // IA32_PMC_GP7_CFG_A
    (0x191e, 0x191e),  // IA32_PMC_GP7_CFG_B
    (0x191f, 0x191f),  // IA32_PMC_GP7_CFG_C
    (0x1920, 0x1920),  // IA32_PMC_GP8_CTR
    (0x1921, 0x1921),  // IA32_PMC_GP8_CFG_A
    (0x1924, 0x1924),  // IA32_PMC_GP9_CTR
    (0x1925, 0x1925),  // IA32_PMC_GP9_CFG_A
    (0x1980, 0x1980),  // IA32_PMC_FX0_CTR
    (0x1982, 0x1982),  // IA32_PMC_FX0_CFG_B
    (0x1983, 0x1983),  // IA32_PMC_FX0_CFG_C
    (0x1984, 0x1984),  // IA32_PMC_FX1_CTR
    (0x1986, 0x1986),  // IA32_PMC_FX1_CFG_B
    (0x1987, 0x1987),  // IA32_PMC_FX1_CFG_C
    (0x1988, 0x1988),  // IA32_PMC_FX2_CTR
    (0x198b, 0x198b),  // IA32_PMC_FX2_CFG_C
    (0x198c, 0x198c),  // IA32_PMC_FX3_CTR
    (0x1990, 0x1990),  // IA32_PMC_FX4_CTR
    (0x1993, 0x1993),  // IA32_PMC_FX4_CFG_C
    (0x1994, 0x1994),  // IA32_PMC_FX5_CTR
    (0x1997, 0x1997),  // IA32_PMC_FX5_CFG_C
    (0x1998, 0x1998),  // IA32_PMC_FX6_CTR
    (0x199b, 0x199b),  // IA32_PMC_FX6_CFG_C
];

} // verus!
