//! Computation of CPU profile data from what the host CPU and hypervisor
//! support. Reading from the hypervisor and writing the profile files is left
//! to the caller.
use crate::cpuid_definitions::{
    CpuidDefinitions, CpuidReg, Parameters, ProfilePolicy, ValueDefinition, ValueDefinitions,
};
use crate::hypervisor_data::{CpuIdEntry, CpuVendor, HypervisorType};
use core::ops::RangeInclusive;
use vstd::bytes::*;
use vstd::prelude::*;
use vstd::string::{StrSliceExecFns, StringSliceAdditionalSpecFns};

verus! {

/// The value with the bits `first..=last` set and all other bits clear.
pub open spec fn range_mask(first: u8, last: int) -> u64
    decreases last - first + 1,
{
    if last < first {
        0
    } else {
        range_mask(first, last - 1) | (1u64 << (last as u64))
    }
}

/// Bit `k` of `x` is set.
pub open spec fn bit_set(x: u64, k: u64) -> bool {
    (x >> k) & 1 == 1
}

proof fn lemma_or_shifted_bit(a: u64, i: u64, k: u64)
    requires
        i < 64,
        k < 64,
    ensures
        bit_set(a | (1u64 << i), k) == (bit_set(a, k) || k == i),
{
    assert(((a | (1u64 << i)) >> k) & 1 == 1 <==> (((a >> k) & 1 == 1) || k == i)) by (bit_vector)
        requires
            i < 64,
            k < 64,
    ;
}

proof fn lemma_zero_bits(k: u64)
    requires
        k < 64,
    ensures
        !bit_set(0, k),
{
    assert((0u64 >> k) & 1 == 0) by (bit_vector);
}

/// Bit `k` of the mask for `first..=last` is set exactly when `k` lies in
/// that range.
pub proof fn lemma_range_mask_bits(first: u8, last: int, k: u64)
    requires
        last < 64,
        k < 64,
    ensures
        bit_set(range_mask(first, last), k) == (first <= k <= last),
    decreases last - first + 1,
{
    if last < first {
        lemma_zero_bits(k);
    } else {
        lemma_range_mask_bits(first, last - 1, k);
        lemma_or_shifted_bit(range_mask(first, last - 1), last as u64, k);
    }
}

/// Returns a value where each bit between `first_bit_pos` and `last_bit_pos`
/// is set (including both ends) and all other bits are 0.
pub(crate) fn bit_range_mask(first_bit_pos: u8, last_bit_pos: u8) -> (r: u64)
    requires
        first_bit_pos > last_bit_pos || last_bit_pos < 64,
    ensures
        r == range_mask(first_bit_pos, last_bit_pos as int),
{
    let mut acc: u64 = 0;
    let mut i: u32 = first_bit_pos as u32;
    while i <= last_bit_pos as u32
        invariant
            first_bit_pos <= i,
            i <= last_bit_pos + 1 || i == first_bit_pos,
            first_bit_pos > last_bit_pos || last_bit_pos < 64,
            acc == range_mask(first_bit_pos, i - 1),
        decreases last_bit_pos + 2 - i,
    {
        acc = acc | (1u64 << i);
        i = i + 1;
    }
    acc
}

/// The value that CPUID reports in register `reg` for the entry `e`.
pub open spec fn register_value(reg: CpuidReg, e: CpuIdEntry) -> u32 {
    match reg {
        CpuidReg::EAX => e.eax,
        CpuidReg::EBX => e.ebx,
        CpuidReg::ECX => e.ecx,
        CpuidReg::EDX => e.edx,
    }
}

/// The entry `e` is for leaf `leaf` and a sub-leaf within `lo..=hi`.
pub open spec fn entry_in_range(leaf: u32, lo: u32, hi: u32, e: CpuIdEntry) -> bool {
    e.function == leaf && lo <= e.index && e.index <= hi
}

/// The pieces into which the sub-leaves `cur..=hi` are cut by the entries of
/// leaf `leaf` with a sub-leaf in `lo..=hi`, taken in the order in which
/// `entries` holds them: each such entry gives a one-sub-leaf piece with its
/// value of register `reg`, preceded by a piece without a value for the
/// sub-leaves it skips; the sub-leaves after the last entry form a last
/// piece without a value, unless that entry is for sub-leaf `hi` itself.
pub open spec fn sub_leaf_pieces(
    leaf: u32,
    lo: u32,
    hi: u32,
    reg: CpuidReg,
    cur: int,
    entries: Seq<CpuIdEntry>,
) -> Seq<(int, int, Option<u32>)>
    decreases entries.len(),
{
    if entries.len() == 0 {
        seq![(cur, hi as int, None)]
    } else if !entry_in_range(leaf, lo, hi, entries[0]) {
        sub_leaf_pieces(leaf, lo, hi, reg, cur, entries.drop_first())
    } else {
        let m = entries[0].index as int;
        let gap: Seq<(int, int, Option<u32>)> = if cur < m {
            seq![(cur, m - 1, None)]
        } else {
            Seq::empty()
        };
        let here = gap.push((m, m, Some(register_value(reg, entries[0]))));
        if m == hi {
            here
        } else {
            here + sub_leaf_pieces(leaf, lo, hi, reg, m + 1, entries.drop_first())
        }
    }
}

/// The bounds and the value of a piece.
pub open spec fn piece_view(p: (RangeInclusive<u32>, Option<u32>)) -> (int, int, Option<u32>) {
    (p.0@.start as int, p.0@.end as int, p.1)
}

/// The value that CPUID reports in register `reg` for the entry `e`.
fn register_value_of(reg: CpuidReg, e: &CpuIdEntry) -> (r: u32)
    ensures
        r == register_value(reg, *e),
{
    match reg {
        CpuidReg::EAX => e.eax,
        CpuidReg::EBX => e.ebx,
        CpuidReg::ECX => e.ecx,
        CpuidReg::EDX => e.edx,
    }
}

/// Returns the exact parameter matches (`sub_leaf..=sub_leaf`, register
/// value), interleaved by the sub-leaf ranges of `param` that did not match
/// any CPUID entry.
fn extract_parameter_matches(param: &Parameters, supported_cpuid_sorted: &[CpuIdEntry]) -> (r: Vec<
    (RangeInclusive<u32>, Option<u32>),
>)
    ensures
        r@.len() == sub_leaf_pieces(
            param.leaf,
            param.sub_leaf@.start,
            param.sub_leaf@.end,
            param.register,
            param.sub_leaf@.start as int,
            supported_cpuid_sorted@,
        ).len(),
        forall|k: int|
            0 <= k < r@.len() ==> piece_view(#[trigger] r@[k]) == sub_leaf_pieces(
                param.leaf,
                param.sub_leaf@.start,
                param.sub_leaf@.end,
                param.register,
                param.sub_leaf@.start as int,
                supported_cpuid_sorted@,
            )[k] && !r@[k].0@.exhausted,
{
    let leaf = param.leaf;
    let reg = param.register;
    let lo = *param.sub_leaf.start();
    let hi = *param.sub_leaf.end();
    let ghost entries = supported_cpuid_sorted@;
    let ghost whole = sub_leaf_pieces(leaf, lo, hi, reg, lo as int, entries);
    let mut out: Vec<(RangeInclusive<u32>, Option<u32>)> = Vec::new();
    let ghost mut outv: Seq<(int, int, Option<u32>)> = Seq::empty();
    let mut cur: u32 = lo;
    let mut i: usize = 0;
    assert(entries.skip(0) == entries);
    while i < supported_cpuid_sorted.len()
        invariant
            entries == supported_cpuid_sorted@,
            leaf == param.leaf,
            reg == param.register,
            lo == param.sub_leaf@.start,
            hi == param.sub_leaf@.end,
            whole == sub_leaf_pieces(leaf, lo, hi, reg, lo as int, entries),
            i <= entries.len(),
            outv + sub_leaf_pieces(leaf, lo, hi, reg, cur as int, entries.skip(i as int)) == whole,
            out@.len() == outv.len(),
            forall|k: int|
                0 <= k < out@.len() ==> piece_view(#[trigger] out@[k]) == outv[k]
                    && !out@[k].0@.exhausted,
        decreases entries.len() - i,
    {
        let e = &supported_cpuid_sorted[i];
        let ghost rest = entries.skip(i as int);
        proof {
            assert(rest[0] == *e);
            assert(rest.drop_first() == entries.skip(i + 1));
        }
        if e.function == leaf && lo <= e.index && e.index <= hi {
            let m = e.index;
            let ghost before = outv;
            if cur < m {
                out.push((RangeInclusive::new(cur, m - 1), None));
                proof {
                    outv = outv.push((cur as int, m - 1, None));
                }
            }
            out.push((RangeInclusive::new(m, m), Some(register_value_of(reg, e))));
            proof {
                outv = outv.push((m as int, m as int, Some(register_value(reg, *e))));
                let gap: Seq<(int, int, Option<u32>)> = if cur < m {
                    seq![(cur as int, m - 1, None)]
                } else {
                    Seq::empty()
                };
                assert(outv == before + gap.push((m as int, m as int, Some(register_value(reg, *e)))));
            }
            if m == hi {
                proof {
                    assert(outv == whole);
                }
                return out;
            }
            cur = m + 1;
        }
        i = i + 1;
    }
    out.push((RangeInclusive::new(cur, hi), None));
    proof {
        outv = outv.push((cur as int, hi as int, None));
    }
    out
}

/// `pieces` cut `a..=b` into non-empty consecutive ranges, in order.
pub open spec fn tiles(pieces: Seq<(int, int, Option<u32>)>, a: int, b: int) -> bool {
    &&& pieces.len() > 0
    &&& pieces[0].0 == a
    &&& pieces.last().1 == b
    &&& forall|k: int| 0 <= k < pieces.len() ==> (#[trigger] pieces[k]).0 <= pieces[k].1
    &&& forall|k: int|
        0 <= k < pieces.len() - 1 ==> (#[trigger] pieces[k + 1]).0 == pieces[k].1 + 1
}

/// The entries of leaf `leaf` come in strictly ascending order of sub-leaf.
pub open spec fn sub_leaves_ascending(leaf: u32, entries: Seq<CpuIdEntry>) -> bool {
    forall|i: int, j: int|
        0 <= i < j < entries.len() && (#[trigger] entries[i]).function == leaf && (
        #[trigger] entries[j]).function == leaf ==> entries[i].index < entries[j].index
}

proof fn lemma_tiles_concat(p: Seq<(int, int, Option<u32>)>, q: Seq<(int, int, Option<u32>)>, a: int, x: int, b: int)
    requires
        tiles(p, a, x),
        tiles(q, x + 1, b),
    ensures
        tiles(p + q, a, b),
{
    let r = p + q;
    assert forall|k: int| 0 <= k < r.len() implies (#[trigger] r[k]).0 <= r[k].1 by {
        if k < p.len() {
            assert(r[k] == p[k]);
        } else {
            assert(r[k] == q[k - p.len()]);
        }
    }
    assert forall|k: int| 0 <= k < r.len() - 1 implies (#[trigger] r[k + 1]).0 == r[k].1 + 1 by {
        if k + 1 < p.len() {
            assert(r[k] == p[k]);
            assert(r[k + 1] == p[k + 1]);
            assert(p[k + 1].0 == p[k].1 + 1);
        } else if k + 1 == p.len() {
            assert(r[k] == p.last());
            assert(r[k + 1] == q[0]);
        } else {
            let j = k - p.len();
            assert(r[k] == q[j]);
            assert(r[k + 1] == q[j + 1]);
        }
    }
}

/// For CPUID entries whose sub-leaves of the looked-up leaf come in strictly
/// ascending order, the pieces cut the sub-leaf range `lo..=hi` into
/// consecutive non-empty ranges, from `lo` to `hi`.
pub proof fn lemma_sub_leaf_pieces_tile(
    leaf: u32,
    lo: u32,
    hi: u32,
    reg: CpuidReg,
    cur: int,
    entries: Seq<CpuIdEntry>,
)
    requires
        lo <= cur <= hi,
        sub_leaves_ascending(leaf, entries),
        forall|i: int|
            0 <= i < entries.len() && entry_in_range(leaf, lo, hi, #[trigger] entries[i]) ==> cur
                <= entries[i].index,
    ensures
        tiles(sub_leaf_pieces(leaf, lo, hi, reg, cur, entries), cur, hi as int),
    decreases entries.len(),
{
    let pieces = sub_leaf_pieces(leaf, lo, hi, reg, cur, entries);
    if entries.len() == 0 {
    } else {
        let rest = entries.drop_first();
        assert forall|i: int, j: int|
            0 <= i < j < rest.len() && (#[trigger] rest[i]).function == leaf && (
            #[trigger] rest[j]).function == leaf implies rest[i].index < rest[j].index by {
            assert(rest[i] == entries[i + 1]);
            assert(rest[j] == entries[j + 1]);
        }
        if !entry_in_range(leaf, lo, hi, entries[0]) {
            assert forall|i: int|
                0 <= i < rest.len() && entry_in_range(leaf, lo, hi, #[trigger] rest[i]) implies cur
                <= rest[i].index by {
                assert(rest[i] == entries[i + 1]);
            }
            lemma_sub_leaf_pieces_tile(leaf, lo, hi, reg, cur, rest);
        } else {
            let m = entries[0].index as int;
            let gap: Seq<(int, int, Option<u32>)> = if cur < m {
                seq![(cur, m - 1, None)]
            } else {
                Seq::empty()
            };
            let here = gap.push((m, m, Some(register_value(reg, entries[0]))));
            assert(tiles(here, cur, m)) by {
                if cur < m {
                    assert(here[1] == (m, m, Some(register_value(reg, entries[0]))));
                }
            }
            if m != hi {
                assert forall|i: int|
                    0 <= i < rest.len() && entry_in_range(leaf, lo, hi, #[trigger] rest[i]) implies m
                    + 1 <= rest[i].index by {
                    assert(rest[i] == entries[i + 1]);
                }
                lemma_sub_leaf_pieces_tile(leaf, lo, hi, reg, m + 1, rest);
                lemma_tiles_concat(here, sub_leaf_pieces(leaf, lo, hi, reg, m + 1, rest), cur, m, hi as int);
            }
        }
    }
}

/// How a CPU profile adjusts one CPUID output register:
/// `value = (mask & host_value) | replacements`.
#[derive(Debug, Copy, Clone, PartialEq, Eq, Structural)]
pub struct CpuidOutputRegisterAdjustments {
    pub mask: u32,
    pub replacements: u32,
}

/// The CPUID part of a CPU profile.
#[derive(Debug, Clone)]
pub struct CpuIdProfileData {
    pub hypervisor: HypervisorType,
    pub cpu_vendor: CpuVendor,
    pub adjustments: Vec<(Parameters, CpuidOutputRegisterAdjustments)>,
}

/// Every value definition names a bit range inside a 32-bit register.
pub open spec fn values_well_formed(values: Seq<ValueDefinition>) -> bool {
    forall|i: int|
        0 <= i < values.len() ==> (#[trigger] values[i]).bits_range.0 <= values[i].bits_range.1
            && values[i].bits_range.1 < 32
}

/// Every value definition of every entry names a bit range inside a 32-bit
/// register.
pub open spec fn definitions_well_formed(defs: Seq<(Parameters, ValueDefinitions)>) -> bool {
    forall|i: int| 0 <= i < defs.len() ==> values_well_formed((#[trigger] defs[i]).1@)
}

/// The mask and the replacements that the value definitions `values` give
/// for a register whose host value is `reg_value` (`None` where the host has
/// no such register): passthrough values keep the host's bits, static
/// values put their value in place, inherited values take the host's bits
/// where the host has the register.
pub open spec fn value_adjustment(values: Seq<ValueDefinition>, reg_value: Option<u32>) -> (u32, u32)
    decreases values.len(),
{
    if values.len() == 0 {
        (0, 0)
    } else {
        let (mask, replacements) = value_adjustment(values.drop_last(), reg_value);
        let v = values.last();
        let bits = range_mask(v.bits_range.0, v.bits_range.1 as int) as u32;
        match v.policy {
            ProfilePolicy::Passthrough => (mask | bits, replacements),
            ProfilePolicy::Static(overwrite) => (mask, replacements | (overwrite << v.bits_range.0)),
            ProfilePolicy::Inherit => match reg_value {
                Some(value) => (mask, replacements | (value & bits)),
                None => (mask, replacements),
            },
        }
    }
}

/// The leaf, sub-leaf range (its bounds and whether it is exhausted),
/// register, mask and replacements of one adjustment.
pub open spec fn adjustment_view(a: (Parameters, CpuidOutputRegisterAdjustments)) -> (
    u32,
    int,
    int,
    bool,
    CpuidReg,
    u32,
    u32,
) {
    (
        a.0.leaf,
        a.0.sub_leaf@.start as int,
        a.0.sub_leaf@.end as int,
        a.0.sub_leaf@.exhausted,
        a.0.register,
        a.1.mask,
        a.1.replacements,
    )
}

/// The adjustments that one CPUID definition gives: one per piece of its
/// sub-leaf range (see [`sub_leaf_pieces`]), each a fresh range that is not
/// exhausted.
pub open spec fn definition_adjustments(
    param: Parameters,
    values: Seq<ValueDefinition>,
    cpuid: Seq<CpuIdEntry>,
) -> Seq<(u32, int, int, bool, CpuidReg, u32, u32)> {
    sub_leaf_pieces(
        param.leaf,
        param.sub_leaf@.start,
        param.sub_leaf@.end,
        param.register,
        param.sub_leaf@.start as int,
        cpuid,
    ).map_values(
        |p: (int, int, Option<u32>)|
            (
                param.leaf,
                p.0,
                p.1,
                false,
                param.register,
                value_adjustment(values, p.2).0,
                value_adjustment(values, p.2).1,
            ),
    )
}

/// The adjustments that the definitions `defs` give, one definition after
/// the other.
pub open spec fn all_adjustments(
    defs: Seq<(Parameters, ValueDefinitions)>,
    cpuid: Seq<CpuIdEntry>,
) -> Seq<(u32, int, int, bool, CpuidReg, u32, u32)>
    decreases defs.len(),
{
    if defs.len() == 0 {
        Seq::empty()
    } else {
        all_adjustments(defs.drop_last(), cpuid) + definition_adjustments(
            defs.last().0,
            defs.last().1@,
            cpuid,
        )
    }
}

/// The mask and the replacements that `values` give for a register whose
/// host value is `reg_value`.
fn value_adjustments(values: &[ValueDefinition], reg_value: Option<u32>) -> (r: (u32, u32))
    requires
        values_well_formed(values@),
    ensures
        r == value_adjustment(values@, reg_value),
{
    let mut mask: u32 = 0;
    let mut replacements: u32 = 0;
    let mut i: usize = 0;
    while i < values.len()
        invariant
            i <= values@.len(),
            values_well_formed(values@),
            (mask, replacements) == value_adjustment(values@.take(i as int), reg_value),
        decreases values@.len() - i,
    {
        let value = values[i];
        proof {
            assert(values@.take(i + 1).drop_last() == values@.take(i as int));
            assert(values@.take(i + 1).last() == values@[i as int]);
            assert(value.bits_range.0 <= value.bits_range.1 && value.bits_range.1 < 32);
        }
        match value.policy {
            ProfilePolicy::Passthrough => {
                let (first_bit_pos, last_bit_pos) = value.bits_range;
                mask = mask | (bit_range_mask(first_bit_pos, last_bit_pos) as u32);
            },
            ProfilePolicy::Static(overwrite_value) => {
                replacements = replacements | (overwrite_value << value.bits_range.0);
            },
            ProfilePolicy::Inherit => {
                let (first_bit_pos, last_bit_pos) = value.bits_range;
                if let Some(matching_register_value) = reg_value {
                    let extraction_mask = bit_range_mask(first_bit_pos, last_bit_pos) as u32;
                    replacements = replacements | (matching_register_value & extraction_mask);
                }
            },
        }
        i = i + 1;
    }
    assert(values@.take(i as int) == values@);
    (mask, replacements)
}

/// Appends the adjustments that the definition `param`, `values` gives to
/// `out`.
fn push_definition_adjustments(
    out: &mut Vec<(Parameters, CpuidOutputRegisterAdjustments)>,
    param: &Parameters,
    values: &ValueDefinitions,
    supported_cpuid_sorted: &[CpuIdEntry],
)
    requires
        values_well_formed(values@),
    ensures
        final(out)@.map_values(|a: (Parameters, CpuidOutputRegisterAdjustments)| adjustment_view(a))
            == old(out)@.map_values(
            |a: (Parameters, CpuidOutputRegisterAdjustments)| adjustment_view(a),
        ) + definition_adjustments(*param, values@, supported_cpuid_sorted@),
{
    let pieces = extract_parameter_matches(param, supported_cpuid_sorted);
    let ghost spec_pieces = sub_leaf_pieces(
        param.leaf,
        param.sub_leaf@.start,
        param.sub_leaf@.end,
        param.register,
        param.sub_leaf@.start as int,
        supported_cpuid_sorted@,
    );
    let ghost want = definition_adjustments(*param, values@, supported_cpuid_sorted@);
    let ghost before = old(out)@.map_values(
        |a: (Parameters, CpuidOutputRegisterAdjustments)| adjustment_view(a),
    );
    let slice = values.as_slice();
    let mut k: usize = 0;
    while k < pieces.len()
        invariant
            k <= pieces@.len(),
            pieces@.len() == spec_pieces.len(),
            want.len() == spec_pieces.len(),
            slice@ == values@,
            values_well_formed(values@),
            forall|t: int|
                0 <= t < pieces@.len() ==> piece_view(#[trigger] pieces@[t]) == spec_pieces[t],
            want == definition_adjustments(*param, values@, supported_cpuid_sorted@),
            spec_pieces == sub_leaf_pieces(
                param.leaf,
                param.sub_leaf@.start,
                param.sub_leaf@.end,
                param.register,
                param.sub_leaf@.start as int,
                supported_cpuid_sorted@,
            ),
            out@.len() == before.len() + k,
            forall|t: int|
                0 <= t < before.len() ==> adjustment_view(#[trigger] out@[t]) == before[t],
            forall|t: int|
                0 <= t < k ==> adjustment_view(#[trigger] out@[before.len() + t]) == want[t],
        decreases pieces@.len() - k,
    {
        let piece = &pieces[k];
        let (mask, replacements) = value_adjustments(slice, piece.1);
        let sub_leaf = RangeInclusive::new(*piece.0.start(), *piece.0.end());
        out.push(
            (
                Parameters { leaf: param.leaf, sub_leaf, register: param.register },
                CpuidOutputRegisterAdjustments { mask, replacements },
            ),
        );
        proof {
            assert(piece_view(pieces@[k as int]) == spec_pieces[k as int]);
            assert(want[k as int] == (
                param.leaf,
                spec_pieces[k as int].0,
                spec_pieces[k as int].1,
                false,
                param.register,
                value_adjustment(values@, spec_pieces[k as int].2).0,
                value_adjustment(values@, spec_pieces[k as int].2).1,
            ));
        }
        k = k + 1;
    }
    proof {
        let after = out@.map_values(
            |a: (Parameters, CpuidOutputRegisterAdjustments)| adjustment_view(a),
        );
        assert forall|t: int| 0 <= t < after.len() implies after[t] == (before + want)[t] by {
            if t < before.len() {
                assert(adjustment_view(out@[t]) == before[t]);
            } else {
                let u = t - before.len();
                assert(adjustment_view(out@[before.len() + u]) == want[u]);
            }
        }
        assert(after =~= before + want);
    }
}

/// Appends the adjustments that all of `definitions` give to `out`.
fn push_all_adjustments<const N: usize>(
    out: &mut Vec<(Parameters, CpuidOutputRegisterAdjustments)>,
    definitions: &CpuidDefinitions<N>,
    supported_cpuid_sorted: &[CpuIdEntry],
)
    requires
        definitions_well_formed(definitions@),
    ensures
        final(out)@.map_values(|a: (Parameters, CpuidOutputRegisterAdjustments)| adjustment_view(a))
            == old(out)@.map_values(
            |a: (Parameters, CpuidOutputRegisterAdjustments)| adjustment_view(a),
        ) + all_adjustments(definitions@, supported_cpuid_sorted@),
{
    let defs = definitions.as_slice();
    let ghost before = old(out)@.map_values(
        |a: (Parameters, CpuidOutputRegisterAdjustments)| adjustment_view(a),
    );
    let mut idx: usize = 0;
    while idx < N
        invariant
            idx <= N,
            defs@ == definitions@,
            N == definitions@.len(),
            definitions_well_formed(definitions@),
            out@.map_values(|a: (Parameters, CpuidOutputRegisterAdjustments)| adjustment_view(a))
                == before + all_adjustments(definitions@.take(idx as int), supported_cpuid_sorted@),
        decreases N - idx,
    {
        let entry = &defs[idx];
        proof {
            assert(definitions@.take(idx + 1).drop_last() == definitions@.take(idx as int));
            assert(definitions@.take(idx + 1).last() == definitions@[idx as int]);
            assert(values_well_formed(definitions@[idx as int].1@));
        }
        push_definition_adjustments(out, &entry.0, &entry.1, supported_cpuid_sorted);
        idx = idx + 1;
        proof {
            assert(before + all_adjustments(definitions@.take(idx - 1), supported_cpuid_sorted@)
                + definition_adjustments(entry.0, entry.1@, supported_cpuid_sorted@) == before
                + all_adjustments(definitions@.take(idx as int), supported_cpuid_sorted@));
        }
    }
    assert(definitions@.take(N as int) == definitions@);
}

/// Computes the CPUID part of a CPU profile from the CPUID entries the host
/// supports, sorted by leaf and sub-leaf, and from the definitions of the
/// processor's and the hypervisor's CPUID values: for each piece of each
/// definition's sub-leaf range, the mask and the replacements that the
/// definition's value policies give.
pub fn generate_cpuid_profile_data_with<const N: usize, const M: usize>(
    hypervisor_type: HypervisorType,
    cpu_vendor: CpuVendor,
    supported_cpuid_sorted: &[CpuIdEntry],
    processor_cpuid_definitions: &CpuidDefinitions<N>,
    hypervisor_cpuid_definitions: &CpuidDefinitions<M>,
) -> (r: CpuIdProfileData)
    requires
        definitions_well_formed(processor_cpuid_definitions@),
        definitions_well_formed(hypervisor_cpuid_definitions@),
    ensures
        r.hypervisor == hypervisor_type,
        r.cpu_vendor == cpu_vendor,
        r.adjustments@.map_values(|a: (Parameters, CpuidOutputRegisterAdjustments)| adjustment_view(a))
            == all_adjustments(processor_cpuid_definitions@, supported_cpuid_sorted@)
            + all_adjustments(hypervisor_cpuid_definitions@, supported_cpuid_sorted@),
{
    let mut adjustments: Vec<(Parameters, CpuidOutputRegisterAdjustments)> = Vec::new();
    assert(adjustments@.map_values(
        |a: (Parameters, CpuidOutputRegisterAdjustments)| adjustment_view(a),
    ) =~= Seq::empty());
    push_all_adjustments(&mut adjustments, processor_cpuid_definitions, supported_cpuid_sorted);
    push_all_adjustments(&mut adjustments, hypervisor_cpuid_definitions, supported_cpuid_sorted);
    CpuIdProfileData { hypervisor: hypervisor_type, cpu_vendor, adjustments }
}

/// Errors of generating CPU profile data.
#[derive(Debug, Copy, Clone, PartialEq, Eq, Structural)]
pub enum GenerationError {
    /// The profile name is too long for the processor brand string.
    ProfileNameTooLong,
    /// The host supports an MSR-based feature at this register address that
    /// no definition describes.
    UnknownFeatureMsr(u32),
}

/// The name of the CPU vendor, as ASCII bytes.
pub open spec fn vendor_name(v: CpuVendor) -> Seq<u8> {
    match v {
        CpuVendor::Unknown => seq![85u8, 110, 107, 110, 111, 119, 110],
        CpuVendor::Intel => seq![73u8, 110, 116, 101, 108],
        CpuVendor::AMD => seq![65u8, 77, 68],
    }
}

/// The name of the CPU vendor, as ASCII bytes ("Unknown", "Intel", "AMD").
fn cpu_vendor_name(v: CpuVendor) -> (r: Vec<u8>)
    ensures
        r@ == vendor_name(v),
{
    let r = match v {
        CpuVendor::Unknown => vec![85u8, 110, 107, 110, 111, 119, 110],
        CpuVendor::Intel => vec![73u8, 110, 116, 101, 108],
        CpuVendor::AMD => vec![65u8, 77, 68],
    };
    assert(r@ =~= vendor_name(v));
    r
}

/// The 48 bytes of the processor brand string for a profile: the vendor's
/// name, a space, the profile's name, then zeros.
pub open spec fn brand_string(vendor: Seq<u8>, name: Seq<u8>) -> Seq<u8> {
    let text = vendor + seq![32u8] + name;
    text + Seq::new((48 - text.len()) as nat, |i: int| 0u8)
}

/// Prepares the bytes which the brand string should consist of.
pub fn cpu_brand_string_bytes(cpu_vendor: CpuVendor, profile_name: &str) -> (r: Result<
    [u8; 48],
    GenerationError,
>)
    ensures
        vendor_name(cpu_vendor).len() + 1 + profile_name.spec_bytes().len() > 48 ==> r == Err::<
            [u8; 48],
            GenerationError,
        >(GenerationError::ProfileNameTooLong),
        vendor_name(cpu_vendor).len() + 1 + profile_name.spec_bytes().len() <= 48 ==> (r matches Ok(
            bytes,
        ) && bytes@ == brand_string(vendor_name(cpu_vendor), profile_name.spec_bytes())),
{
    let vendor = cpu_vendor_name(cpu_vendor);
    let name = profile_name.as_bytes();
    if name.len() > 47 - vendor.len() {
        return Err(GenerationError::ProfileNameTooLong);
    }
    let ghost text = vendor@ + seq![32u8] + name@;
    let ghost want = brand_string(vendor@, name@);
    let text_len = vendor.len() + 1 + name.len();
    let mut brand_string_bytes = [0u8; 48];
    let mut i: usize = 0;
    while i < text_len
        invariant
            text == vendor@ + seq![32u8] + name@,
            want == brand_string(vendor@, name@),
            text.len() <= 48,
            text_len == text.len(),
            i <= text.len(),
            forall|k: int| 0 <= k < i ==> brand_string_bytes@[k] == text[k],
            forall|k: int| i <= k < 48 ==> brand_string_bytes@[k] == 0u8,
            brand_string_bytes@.len() == 48,
        decreases text.len() - i,
    {
        let b = if i < vendor.len() {
            vendor[i]
        } else if i == vendor.len() {
            32u8
        } else {
            name[i - vendor.len() - 1]
        };
        assert(b == text[i as int]);
        brand_string_bytes[i] = b;
        i = i + 1;
    }
    assert(brand_string_bytes@ =~= want);
    Ok(brand_string_bytes)
}

/// The entry `e` is the first sub-leaf of leaf `leaf`.
pub open spec fn is_entry_for(e: CpuIdEntry, leaf: u32) -> bool {
    e.function == leaf && e.index == 0
}

/// The position of the first entry of `v` for sub-leaf 0 of `leaf`, or -1.
pub open spec fn first_entry_index(v: Seq<CpuIdEntry>, leaf: u32) -> int
    decreases v.len(),
{
    if v.len() == 0 {
        -1
    } else {
        let r = first_entry_index(v.drop_last(), leaf);
        if r >= 0 {
            r
        } else if is_entry_for(v.last(), leaf) {
            v.len() - 1
        } else {
            -1
        }
    }
}

/// `v` with its first entry for sub-leaf 0 of `e`'s leaf replaced by `e`,
/// or with `e` appended where it has no such entry.
pub open spec fn replace_or_push(v: Seq<CpuIdEntry>, e: CpuIdEntry) -> Seq<CpuIdEntry> {
    let i = first_entry_index(v, e.function);
    if i >= 0 {
        v.update(i, e)
    } else {
        v.push(e)
    }
}

/// Word `k` of the brand string: four of its bytes, little-endian.
pub open spec fn brand_word(brand: Seq<u8>, k: int) -> u32 {
    spec_u32_from_le_bytes(brand.subrange(4 * k, 4 * k + 4))
}

/// The CPUID entry that carries part `j` (0, 1 or 2) of the brand string.
pub open spec fn brand_entry(brand: Seq<u8>, j: int) -> CpuIdEntry {
    CpuIdEntry {
        function: (0x80000002 + j) as u32,
        index: 0,
        flags: 0,
        eax: brand_word(brand, 4 * j),
        ebx: brand_word(brand, 4 * j + 1),
        ecx: brand_word(brand, 4 * j + 2),
        edx: brand_word(brand, 4 * j + 3),
    }
}

proof fn lemma_first_entry_index_prefix(v: Seq<CpuIdEntry>, leaf: u32, j: int)
    requires
        0 <= j <= v.len(),
        first_entry_index(v.take(j), leaf) >= 0,
    ensures
        first_entry_index(v, leaf) == first_entry_index(v.take(j), leaf),
    decreases v.len() - j,
{
    if j < v.len() {
        assert(v.take(j + 1).drop_last() == v.take(j));
        lemma_first_entry_index_prefix(v, leaf, j + 1);
    } else {
        assert(v.take(j) == v);
    }
}

/// Word `k` of the brand string.
fn brand_word_at(brand: &[u8; 48], k: usize) -> (r: u32)
    requires
        k < 12,
    ensures
        r == brand_word(brand@, k as int),
{
    let o = 4 * k;
    let chunk: [u8; 4] = [brand[o], brand[o + 1], brand[o + 2], brand[o + 3]];
    assert(chunk@ =~= brand@.subrange(4 * k, 4 * k + 4));
    u32_from_le_bytes(chunk.as_slice())
}

/// Replaces the first entry for sub-leaf 0 of `e`'s leaf by `e`, or appends
/// `e` where there is no such entry.
fn replace_or_push_entry(cpuid: &mut Vec<CpuIdEntry>, e: CpuIdEntry)
    ensures
        final(cpuid)@ == replace_or_push(old(cpuid)@, e),
{
    let mut i: usize = 0;
    while i < cpuid.len()
        invariant
            i <= cpuid@.len(),
            cpuid@ == old(cpuid)@,
            first_entry_index(cpuid@.take(i as int), e.function) == -1,
        decreases cpuid@.len() - i,
    {
        proof {
            assert(cpuid@.take(i + 1).drop_last() == cpuid@.take(i as int));
        }
        if cpuid[i].function == e.function && cpuid[i].index == 0 {
            proof {
                assert(first_entry_index(cpuid@.take(i + 1), e.function) == i);
                lemma_first_entry_index_prefix(cpuid@, e.function, i + 1);
            }
            cpuid.set(i, e);
            return;
        }
        i = i + 1;
    }
    assert(cpuid@.take(i as int) == cpuid@);
    cpuid.push(e);
}

/// Overwrites the processor brand string (leaves 0x80000002 to 0x80000004)
/// with the given `brand_string_bytes`.
pub fn overwrite_brand_string(cpuid: Vec<CpuIdEntry>, brand_string_bytes: [u8; 48]) -> (r: Vec<
    CpuIdEntry,
>)
    ensures
        r@ == replace_or_push(
            replace_or_push(
                replace_or_push(cpuid@, brand_entry(brand_string_bytes@, 0)),
                brand_entry(brand_string_bytes@, 1),
            ),
            brand_entry(brand_string_bytes@, 2),
        ),
{
    let ghost orig = cpuid@;
    let mut cpuid = cpuid;
    let mut j: u32 = 0;
    let ghost b = brand_string_bytes@;
    while j < 3
        invariant
            j <= 3,
            b == brand_string_bytes@,
            b.len() == 48,
            j == 0 ==> cpuid@ == orig,
            j == 1 ==> cpuid@ == replace_or_push(orig, brand_entry(b, 0)),
            j == 2 ==> cpuid@ == replace_or_push(
                replace_or_push(orig, brand_entry(b, 0)),
                brand_entry(b, 1),
            ),
            j == 3 ==> cpuid@ == replace_or_push(
                replace_or_push(replace_or_push(orig, brand_entry(b, 0)), brand_entry(b, 1)),
                brand_entry(b, 2),
            ),
        decreases 3 - j,
    {
        let k: usize = (4 * j) as usize;
        let words: [u32; 4] = [
            brand_word_at(&brand_string_bytes, k),
            brand_word_at(&brand_string_bytes, k + 1),
            brand_word_at(&brand_string_bytes, k + 2),
            brand_word_at(&brand_string_bytes, k + 3),
        ];
        let leaf: u32 = 0x80000002 + j;
        let entry = CpuIdEntry {
            function: leaf,
            index: 0,
            flags: 0,
            eax: words[0],
            ebx: words[1],
            ecx: words[2],
            edx: words[3],
        };
        assert(entry == brand_entry(b, j as int));
        replace_or_push_entry(&mut cpuid, entry);
        j = j + 1;
    }
    cpuid
}

/// The entries come in ascending order of leaf, and of sub-leaf within a
/// leaf.
pub open spec fn entries_sorted(v: Seq<CpuIdEntry>) -> bool {
    forall|i: int, j: int|
        0 <= i < j < v.len() ==> (#[trigger] v[i]).function < (#[trigger] v[j]).function || (
        v[i].function == v[j].function && v[i].index <= v[j].index)
}

/// Sorts CPUID entries by leaf and sub-leaf with the standard library's
/// `slice::sort_unstable_by_key`: the result holds the same entries, in
/// ascending order of the key `(function, index)`. Entries with equal keys
/// may come in any order among themselves; the contract says nothing of it.
#[verifier::external_body]
fn sort_unstable_by_leaf_and_sub_leaf(cpuid: &mut Vec<CpuIdEntry>)
    ensures
        final(cpuid)@.to_multiset() == old(cpuid)@.to_multiset(),
        entries_sorted(final(cpuid)@),
{
    cpuid.sort_unstable_by_key(|entry| (entry.function, entry.index));
}

/// Sorts the CPUID entries by function and index.
pub fn sort_entries(cpuid: Vec<CpuIdEntry>) -> (r: Vec<CpuIdEntry>)
    ensures
        r@.to_multiset() == cpuid@.to_multiset(),
        entries_sorted(r@),
{
    let mut cpuid = cpuid;
    sort_unstable_by_leaf_and_sub_leaf(&mut cpuid);
    cpuid
}

/// What asking the hypervisor to enable the AMX state components for guests
/// gave.
#[derive(Debug, Clone, Copy, PartialEq, Eq, Structural)]
pub enum AmxEnableOutcome {
    /// The state components were enabled.
    Enabled,
    /// The host does not support AMX, so there is nothing to enable.
    NotSupported,
    /// Requesting the tile state components for guests failed.
    TileRequestFailed,
}

/// Whether the CPUID entries that the host supports may be queried after
/// enabling AMX gave `outcome`: they may where AMX was enabled or is not
/// supported at all; a failed request for the tile state stops the
/// generation with an error.
pub fn amx_allows_cpuid_query(outcome: AmxEnableOutcome) -> (r: bool)
    ensures
        r == !(outcome is TileRequestFailed),
{
    match outcome {
        AmxEnableOutcome::TileRequestFailed => false,
        _ => true,
    }
}

/// The mask of the bits `0..=n` is `2^(n + 1) - 1`.
proof fn lemma_low_range_mask(n: int)
    requires
        -1 <= n < 63,
    ensures
        range_mask(0, n) == ((1u64 << ((n + 1) as u64)) - 1) as u64,
    decreases n + 1,
{
    if n == -1 {
        assert(((1u64 << 0u64) - 1) as u64 == 0u64) by (bit_vector);
    } else {
        lemma_low_range_mask(n - 1);
        let m = n as u64;
        assert((((1u64 << m) - 1) as u64 | (1u64 << m)) == ((1u64 << ((m + 1) as u64)) - 1) as u64)
            by (bit_vector)
            requires
                m < 63,
        ;
    }
}

/// A CPUID definition that inherits all 32 bits of register `reg` for one
/// sub-leaf, on a host whose CPUID entry `e` is for exactly that leaf and
/// sub-leaf, gives one adjustment for that sub-leaf: it masks nothing and
/// replaces the register with the host's value of that very register, the
/// `eax`, `ebx`, `ecx` or `edx` field of `e` that `reg` names.
pub proof fn lemma_inherit_takes_host_register(param: Parameters, values: ValueDefinitions, e: CpuIdEntry)
    requires
        e.function == param.leaf,
        param.sub_leaf@.start == e.index,
        param.sub_leaf@.end == e.index,
        values@.len() == 1,
        values@[0].bits_range == (0u8, 31u8),
        values@[0].policy == ProfilePolicy::Inherit,
    ensures
        all_adjustments(seq![(param, values)], seq![e]).len() == 1,
        all_adjustments(seq![(param, values)], seq![e])[0].0 == param.leaf,
        all_adjustments(seq![(param, values)], seq![e])[0].1 == e.index,
        all_adjustments(seq![(param, values)], seq![e])[0].2 == e.index,
        all_adjustments(seq![(param, values)], seq![e])[0].4 == param.register,
        all_adjustments(seq![(param, values)], seq![e])[0].5 == 0,
        param.register == CpuidReg::EAX ==> all_adjustments(seq![(param, values)], seq![e])[0].6 == e.eax,
        param.register == CpuidReg::EBX ==> all_adjustments(seq![(param, values)], seq![e])[0].6 == e.ebx,
        param.register == CpuidReg::ECX ==> all_adjustments(seq![(param, values)], seq![e])[0].6 == e.ecx,
        param.register == CpuidReg::EDX ==> all_adjustments(seq![(param, values)], seq![e])[0].6 == e.edx,
{
    let defs = seq![(param, values)];
    let cpuid = seq![e];
    let reg = param.register;
    let host = match reg {
        CpuidReg::EAX => e.eax,
        CpuidReg::EBX => e.ebx,
        CpuidReg::ECX => e.ecx,
        CpuidReg::EDX => e.edx,
    };
    assert(defs.drop_last() =~= Seq::<(Parameters, ValueDefinitions)>::empty());
    assert(entry_in_range(param.leaf, e.index, e.index, cpuid[0]));
    let pieces = sub_leaf_pieces(param.leaf, e.index, e.index, reg, e.index as int, cpuid);
    assert(pieces =~= seq![(e.index as int, e.index as int, Some(register_value(reg, e)))]);
    assert(register_value(reg, e) == host);
    let v = values@;
    assert(v.drop_last() =~= Seq::<ValueDefinition>::empty());
    lemma_low_range_mask(31);
    assert(((1u64 << 32u64) - 1) as u64 == 0xffff_ffffu64) by (bit_vector);
    assert((0xffff_ffffu64 as u32) == 0xffff_ffffu32);
    assert((0u32 | (host & 0xffff_ffffu32)) == host) by (bit_vector);
    assert(range_mask(0u8, 31int) == 0xffff_ffffu64);
    assert(v.last().bits_range.1 as int == 31);
    assert(value_adjustment(v.drop_last(), Some(host)) == (0u32, 0u32));
    assert(value_adjustment(v, Some(host)) == (0u32, host));
    assert(defs.last() == (param, values));
    assert(all_adjustments(defs.drop_last(), cpuid) == Seq::<(u32, int, int, bool, CpuidReg, u32, u32)>::empty());
    assert(all_adjustments(defs, cpuid) =~= definition_adjustments(param, v, cpuid));
}

/// The lowercase form of a string, as the standard library's
/// `str::to_lowercase` gives it.
pub uninterp spec fn lowercase(s: Seq<char>) -> Seq<char>;

/// Calls `str::to_lowercase`. Its result is named `lowercase` of the
/// string's characters: it depends on them alone, through the Unicode case
/// tables that the standard library holds. Nothing more is claimed of it.
#[verifier::external_body]
fn to_lowercase(s: &str) -> (r: String)
    ensures
        r@ == lowercase(s@),
{
    s.to_lowercase()
}

/// The character has the Unicode `White_Space` property, which is what the
/// standard library's `char::is_whitespace` tests.
pub open spec fn white_space(c: char) -> bool {
    let u = c as u32;
    ||| 0x9 <= u <= 0xd
    ||| u == 0x20
    ||| u == 0x85
    ||| u == 0xa0
    ||| u == 0x1680
    ||| 0x2000 <= u <= 0x200a
    ||| u == 0x2028
    ||| u == 0x2029
    ||| u == 0x202f
    ||| u == 0x205f
    ||| u == 0x3000
}

/// Whether `c` has the Unicode `White_Space` property.
pub fn is_white_space(c: char) -> (r: bool)
    ensures
        r == white_space(c),
{
    let u = c as u32;
    (0x9 <= u && u <= 0xd) || u == 0x20 || u == 0x85 || u == 0xa0 || u == 0x1680 || (0x2000 <= u && u
        <= 0x200a) || u == 0x2028 || u == 0x2029 || u == 0x202f || u == 0x205f || u == 0x3000
}

/// `s` with each whitespace character replaced by `-`.
pub open spec fn white_space_to_dashes(s: Seq<char>) -> Seq<char> {
    s.map_values(|c: char| if white_space(c) { '-' } else { c })
}

/// The name that the files of a CPU profile get: the profile's name in
/// lowercase, with each space, and likewise each other whitespace
/// character, replaced by `-`.
pub open spec fn profile_file_name_of(profile_name: Seq<char>) -> Seq<char> {
    white_space_to_dashes(lowercase(profile_name))
}

/// The name that the files of a CPU profile get: the profile's name in
/// lowercase, with each space, and likewise each other whitespace
/// character, replaced by `-`.
pub fn profile_file_name(profile_name: &str) -> (r: Vec<char>)
    ensures
        r@ == profile_file_name_of(profile_name@),
{
    let lower = to_lowercase(profile_name);
    let lower = lower.as_str();
    let ghost s = lower@;
    let n = lower.unicode_len();
    let mut name: Vec<char> = Vec::new();
    let mut i: usize = 0;
    while i < n
        invariant
            n == s.len(),
            s == lower@,
            i <= n,
            name@ == white_space_to_dashes(s.take(i as int)),
        decreases n - i,
    {
        let c = lower.get_char(i);
        if is_white_space(c) {
            name.push('-');
        } else {
            name.push(c);
        }
        i = i + 1;
        assert(white_space_to_dashes(s.take(i as int)) =~= white_space_to_dashes(s.take(i - 1)).push(
            if white_space(c) { '-' } else { c },
        ));
    }
    assert(s.take(n as int) == s);
    name
}

} // verus!
