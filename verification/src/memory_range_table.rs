//! Tables of guest-memory ranges, as transferred in one migration payload.
use vstd::bytes::*;
use vstd::prelude::*;

verus! {

/// A range of guest-physical memory: `length` bytes from address `gpa` on.
#[derive(Debug, Copy, Clone, Default, PartialEq, Eq, Structural)]
pub struct MemoryRange {
    pub gpa: u64,
    pub length: u64,
}

/// The address just past the range.
pub open spec fn range_end(r: MemoryRange) -> int {
    r.gpa + r.length
}

/// The range's end address fits in a `u64`.
pub open spec fn range_fits(r: MemoryRange) -> bool {
    r.gpa + r.length <= u64::MAX
}

/// The range lies within the 64-bit address space: it is empty, or the
/// address of its last byte fits in a `u64`.
pub open spec fn range_in_address_space(r: MemoryRange) -> bool {
    r.length == 0 || r.gpa + r.length - 1 <= u64::MAX
}

/// Every range of `s` lies within the 64-bit address space.
pub open spec fn ranges_in_address_space(s: Seq<MemoryRange>) -> bool {
    forall|i: int| 0 <= i < s.len() ==> #[trigger] range_in_address_space(s[i])
}

/// Every range of `s` has an end address that fits in a `u64`.
pub open spec fn ranges_fit(s: Seq<MemoryRange>) -> bool {
    forall|i: int| 0 <= i < s.len() ==> #[trigger] range_fits(s[i])
}

/// The ranges of `s` come in ascending order of their start address.
pub open spec fn sorted_by_gpa(s: Seq<MemoryRange>) -> bool {
    forall|i: int, j: int| 0 <= i < j < s.len() ==> #[trigger] s[i].gpa <= #[trigger] s[j].gpa
}

/// The point `x / 2` lies in the range or on its end: the range seen as a
/// closed interval of the real line.
///
/// Points are counted in halves so that two ranges that touch share a point
/// (the end of one, which is the start of the other), while two ranges with a
/// gap of a single byte between them, or a zero-length range right after
/// another one ends, do not. Ranges that share a point are merged into one.
pub open spec fn closed_contains(r: MemoryRange, x: int) -> bool {
    2 * r.gpa <= x <= 2 * (r.gpa + r.length)
}

/// Some range of `s`, seen as a closed interval, holds the point `x / 2`.
pub open spec fn touches(s: Seq<MemoryRange>, x: int) -> bool {
    exists|i: int| 0 <= i < s.len() && #[trigger] closed_contains(s[i], x)
}

/// The ranges of `s` are sorted and neither overlap nor touch: each one ends
/// strictly before the next one starts.
pub open spec fn canonical(s: Seq<MemoryRange>) -> bool {
    forall|i: int, j: int| 0 <= i < j < s.len() ==> range_end(#[trigger] s[i]) < (#[trigger] s[j]).gpa
}

/// The range that starts where `current` starts and ends where the later of
/// `current` and `next` ends.
pub open spec fn merged_range(current: MemoryRange, next: MemoryRange) -> MemoryRange {
    let end = if range_end(next) > range_end(current) {
        range_end(next)
    } else {
        range_end(current)
    };
    MemoryRange { gpa: current.gpa, length: (end - current.gpa) as u64 }
}

proof fn lemma_touches_push(s: Seq<MemoryRange>, r: MemoryRange, x: int)
    ensures
        touches(s.push(r), x) == (touches(s, x) || closed_contains(r, x)),
{
    if touches(s, x) {
        let i = choose|i: int| 0 <= i < s.len() && #[trigger] closed_contains(s[i], x);
        assert(s.push(r)[i] == s[i]);
    }
    if closed_contains(r, x) {
        assert(s.push(r)[s.len() as int] == r);
    }
    if touches(s.push(r), x) {
        let i = choose|i: int| 0 <= i < s.push(r).len() && #[trigger] closed_contains(s.push(r)[i], x);
        if i < s.len() {
            assert(s.push(r)[i] == s[i]);
        }
    }
}

proof fn lemma_touches_take_step(s: Seq<MemoryRange>, i: int, x: int)
    requires
        0 <= i < s.len(),
    ensures
        touches(s.take(i + 1), x) == (touches(s.take(i), x) || closed_contains(s[i], x)),
{
    assert(s.take(i + 1) == s.take(i).push(s[i]));
    lemma_touches_push(s.take(i), s[i], x);
}

/// The sum of the lengths of the ranges of `s`.
pub open spec fn total_length(s: Seq<MemoryRange>) -> int
    decreases s.len(),
{
    if s.len() == 0 {
        0
    } else {
        total_length(s.drop_last()) + s.last().length
    }
}

/// The bytes of one range on the wire: start address, then length, both
/// little-endian.
pub open spec fn range_bytes(r: MemoryRange) -> Seq<u8> {
    spec_u64_to_le_bytes(r.gpa) + spec_u64_to_le_bytes(r.length)
}

/// The bytes of a sequence of ranges on the wire.
pub open spec fn table_bytes(s: Seq<MemoryRange>) -> Seq<u8>
    decreases s.len(),
{
    if s.len() == 0 {
        Seq::empty()
    } else {
        table_bytes(s.drop_last()) + range_bytes(s.last())
    }
}

/// The ranges of the given tables, one table after the other.
pub open spec fn concat_tables(ts: Seq<MemoryRangeTable>) -> Seq<MemoryRange>
    decreases ts.len(),
{
    if ts.len() == 0 {
        Seq::empty()
    } else {
        concat_tables(ts.drop_last()) + ts.last()@
    }
}

proof fn lemma_total_length_take_mono(s: Seq<MemoryRange>, i: int, j: int)
    requires
        0 <= i <= j <= s.len(),
    ensures
        0 <= total_length(s.take(i)) <= total_length(s.take(j)),
    decreases j - i,
{
    if i < j {
        lemma_total_length_take_mono(s, i, j - 1);
        assert(s.take(j).drop_last() == s.take(j - 1));
    } else {
        lemma_total_length_nonneg(s.take(i));
    }
}

proof fn lemma_total_length_nonneg(s: Seq<MemoryRange>)
    ensures
        total_length(s) >= 0,
    decreases s.len(),
{
    if s.len() > 0 {
        lemma_total_length_nonneg(s.drop_last());
    }
}

proof fn lemma_table_bytes_len(s: Seq<MemoryRange>)
    ensures
        table_bytes(s).len() == 16 * s.len(),
    decreases s.len(),
{
    lemma_auto_spec_u64_to_from_le_bytes();
    if s.len() > 0 {
        lemma_table_bytes_len(s.drop_last());
    }
}

impl MemoryRange {
    /// Tries to merge `next` into `current` if they overlap or touch.
    /// Returns the extended range on success, or `None` if they are disjoint.
    ///
    /// Meant for `next.gpa >= current.gpa` (i.e. ranges are sorted).
    fn try_merge(current: MemoryRange, next: MemoryRange) -> (r: Option<MemoryRange>)
        requires
            range_fits(current),
            range_fits(next),
        ensures
            next.gpa <= range_end(current) ==> r == Some(merged_range(current, next)),
            next.gpa > range_end(current) ==> r == None::<MemoryRange>,
    {
        let current_end = current.gpa + current.length;
        if next.gpa <= current_end {
            let next_end = next.gpa + next.length;
            let end = if next_end > current_end {
                next_end
            } else {
                current_end
            };
            Some(MemoryRange { gpa: current.gpa, length: end - current.gpa })
        } else {
            None
        }
    }
}

/// A set of guest-memory ranges to transfer as one migration payload.
#[derive(Debug, Clone)]
pub struct MemoryRangeTable {
    data: Vec<MemoryRange>,
}

impl Default for MemoryRangeTable {
    /// The empty table.
    fn default() -> (r: Self)
        ensures
            r@ == Seq::<MemoryRange>::empty(),
    {
        MemoryRangeTable { data: Vec::new() }
    }
}

impl View for MemoryRangeTable {
    type V = Seq<MemoryRange>;

    closed spec fn view(&self) -> Seq<MemoryRange> {
        self.data@
    }
}

impl MemoryRangeTable {
    /// The ranges of the table.
    pub fn ranges(&self) -> (r: &[MemoryRange])
        ensures
            r@ == self@,
    {
        self.data.as_slice()
    }

    /// The ranges of the table.
    pub fn regions(&self) -> (r: &[MemoryRange])
        ensures
            r@ == self@,
    {
        self.data.as_slice()
    }

    /// Appends a range to the table.
    pub fn push(&mut self, range: MemoryRange)
        ensures
            final(self)@ == old(self)@.push(range),
    {
        self.data.push(range);
    }

    /// The length in bytes of the table on the wire.
    pub fn length(&self) -> (r: u64)
        requires
            16 * self@.len() <= usize::MAX,
        ensures
            r == 16 * self@.len(),
    {
        (16 * self.data.len()) as u64
    }

    pub fn is_empty(&self) -> (r: bool)
        ensures
            r == (self@.len() == 0),
    {
        self.data.len() == 0
    }

    /// Appends the ranges of `table` to this table.
    pub fn extend(&mut self, table: Self)
        ensures
            final(self)@ == old(self)@ + table@,
    {
        let mut other = table.data;
        self.data.append(&mut other);
    }

    /// A table that holds the ranges of the given tables, one after the other.
    pub fn new_from_tables(tables: Vec<Self>) -> (r: Self)
        ensures
            r@ == concat_tables(tables@),
    {
        let mut data: Vec<MemoryRange> = Vec::new();
        let mut i: usize = 0;
        while i < tables.len()
            invariant
                i <= tables@.len(),
                data@ == concat_tables(tables@.take(i as int)),
            decreases tables@.len() - i,
        {
            let t = &tables[i];
            let mut k: usize = 0;
            let ghost before = data@;
            while k < t.data.len()
                invariant
                    k <= t.data@.len(),
                    data@ == before + t.data@.take(k as int),
                decreases t.data@.len() - k,
            {
                data.push(t.data[k]);
                k = k + 1;
                assert(t.data@.take(k as int) == t.data@.take(k - 1).push(t.data@[k - 1]));
            }
            assert(t.data@.take(k as int) == t.data@);
            assert(tables@.take(i + 1).drop_last() == tables@.take(i as int));
            i = i + 1;
        }
        assert(tables@.take(i as int) == tables@);
        MemoryRangeTable { data }
    }

    /// The sum of the lengths of all ranges, in bytes.
    pub fn effective_size(&self) -> (r: u64)
        requires
            total_length(self@) <= u64::MAX,
        ensures
            r == total_length(self@),
    {
        let mut sum: u64 = 0;
        let mut i: usize = 0;
        while i < self.data.len()
            invariant
                i <= self@.len(),
                sum == total_length(self@.take(i as int)),
                total_length(self@) <= u64::MAX,
            decreases self@.len() - i,
        {
            proof {
                lemma_total_length_take_mono(self@, i + 1, self@.len() as int);
                assert(self@.take(self@.len() as int) == self@);
                assert(self@.take(i + 1).drop_last() == self@.take(i as int));
            }
            sum = sum + self.data[i].length;
            i = i + 1;
        }
        assert(self@.take(i as int) == self@);
        sum
    }

    /// Decodes a table from its bytes on the wire: 16 bytes per range.
    pub fn read_from(bytes: &[u8]) -> (r: Self)
        requires
            bytes@.len() % 16 == 0,
        ensures
            table_bytes(r@) == bytes@,
    {
        let mut data: Vec<MemoryRange> = Vec::new();
        let mut off: usize = 0;
        while off < bytes.len()
            invariant
                bytes@.len() % 16 == 0,
                off <= bytes@.len(),
                off == 16 * data@.len(),
                table_bytes(data@) == bytes@.subrange(0, off as int),
            decreases bytes@.len() - off,
        {
            let gpa_bytes: [u8; 8] = [
                bytes[off],
                bytes[off + 1],
                bytes[off + 2],
                bytes[off + 3],
                bytes[off + 4],
                bytes[off + 5],
                bytes[off + 6],
                bytes[off + 7],
            ];
            let len_bytes: [u8; 8] = [
                bytes[off + 8],
                bytes[off + 9],
                bytes[off + 10],
                bytes[off + 11],
                bytes[off + 12],
                bytes[off + 13],
                bytes[off + 14],
                bytes[off + 15],
            ];
            let range = MemoryRange {
                gpa: u64_from_le_bytes(gpa_bytes.as_slice()),
                length: u64_from_le_bytes(len_bytes.as_slice()),
            };
            proof {
                lemma_auto_spec_u64_to_from_le_bytes();
                assert(gpa_bytes@ == bytes@.subrange(off as int, off + 8));
                assert(len_bytes@ == bytes@.subrange(off + 8, off + 16));
                assert(bytes@.subrange(0, off + 16) == bytes@.subrange(0, off as int)
                    + bytes@.subrange(off as int, off + 8) + bytes@.subrange(off + 8, off + 16));
                assert(data@.push(range).drop_last() == data@);
            }
            data.push(range);
            off = off + 16;
        }
        assert(bytes@.subrange(0, off as int) == bytes@);
        MemoryRangeTable { data }
    }

    /// Appends the bytes of the table on the wire to `out`.
    pub fn write_to(&self, out: &mut Vec<u8>)
        ensures
            final(out)@ == old(out)@ + table_bytes(self@),
    {
        let mut i: usize = 0;
        while i < self.data.len()
            invariant
                i <= self@.len(),
                out@ == old(out)@ + table_bytes(self@.take(i as int)),
            decreases self@.len() - i,
        {
            let r = self.data[i];
            let gpa_bytes = u64_to_le_bytes(r.gpa);
            let len_bytes = u64_to_le_bytes(r.length);
            let mut k: usize = 0;
            let ghost before = out@;
            while k < 8
                invariant
                    k <= 8,
                    gpa_bytes@.len() == 8,
                    out@ == before + gpa_bytes@.take(k as int),
                decreases 8 - k,
            {
                out.push(gpa_bytes[k]);
                k = k + 1;
                assert(gpa_bytes@.take(k as int) == gpa_bytes@.take(k - 1).push(gpa_bytes@[k - 1]));
            }
            let mut k: usize = 0;
            let ghost mid = out@;
            while k < 8
                invariant
                    k <= 8,
                    len_bytes@.len() == 8,
                    out@ == mid + len_bytes@.take(k as int),
                decreases 8 - k,
            {
                out.push(len_bytes[k]);
                k = k + 1;
                assert(len_bytes@.take(k as int) == len_bytes@.take(k - 1).push(len_bytes@[k - 1]));
            }
            proof {
                assert(gpa_bytes@.take(8) == gpa_bytes@);
                assert(len_bytes@.take(8) == len_bytes@);
                assert(self@.take(i + 1).drop_last() == self@.take(i as int));
                assert(self@.take(i + 1).last() == r);
            }
            i = i + 1;
        }
        assert(self@.take(i as int) == self@);
    }

    /// Merges a [`MemoryRangeTable`] into the current table and collapses
    /// overlapping or touching ranges into a single range.
    ///
    /// The result is the canonical table (sorted, no two ranges overlapping or
    /// touching) that covers exactly what the two tables cover, whichever of
    /// them is empty. The tables are sorted by start address first, so they
    /// may come in any order.
    pub fn merge_in_place(&mut self, other: MemoryRangeTable)
        requires
            ranges_fit(old(self)@),
            ranges_fit(other@),
        ensures
            canonical(final(self)@),
            forall|x: int|
                #[trigger] touches(final(self)@, x) == (touches(old(self)@, x) || touches(other@, x)),
            sorted_by_gpa(final(self)@),
            ranges_fit(final(self)@),
    {
        let ghost old_self = self.data@;
        let ghost old_other = other.data@;
        let mut other = other;
        sort_by_gpa(&mut self.data);
        sort_by_gpa(&mut other.data);
        proof {
            lemma_permutation_keeps_cover(old_self, self.data@);
            lemma_permutation_keeps_cover(old_other, other.data@);
        }
        if self.data.len() == 0 && other.data.len() == 0 {
            return;
        }
        let ghost sa = self.data@;
        let ghost sb = other.data@;
        let a = &self.data;
        let b = &other.data;
        let mut out: Vec<MemoryRange> = Vec::new();
        let mut i: usize = 0;
        let mut j: usize = 0;
        let mut cur: MemoryRange;
        if a.len() > 0 && (b.len() == 0 || a[0].gpa <= b[0].gpa) {
            cur = a[0];
            i = 1;
        } else {
            cur = b[0];
            j = 1;
        }
        proof {
            assert forall|x: int|
                #[trigger] touches(out@.push(cur), x) == (touches(sa.take(i as int), x) || touches(
                    sb.take(j as int),
                    x,
                )) by {
                lemma_touches_push(out@, cur, x);
                if i == 1 {
                    lemma_touches_take_step(sa, 0, x);
                } else {
                    lemma_touches_take_step(sb, 0, x);
                }
                assert(!touches(sa.take(0), x));
                assert(!touches(sb.take(0), x));
                assert(!touches(out@, x));
            }
        }
        while i < a.len() || j < b.len()
            invariant
                sa == a@,
                sb == b@,
                sorted_by_gpa(sa),
                sorted_by_gpa(sb),
                ranges_fit(sa),
                ranges_fit(sb),
                i <= sa.len(),
                j <= sb.len(),
                canonical(out@.push(cur)),
                ranges_fit(out@.push(cur)),
                i < sa.len() ==> cur.gpa <= sa[i as int].gpa,
                j < sb.len() ==> cur.gpa <= sb[j as int].gpa,
                forall|x: int|
                    #[trigger] touches(out@.push(cur), x) == (touches(sa.take(i as int), x)
                        || touches(sb.take(j as int), x)),
            decreases sa.len() + sb.len() - i - j,
        {
            let ghost old_full = out@.push(cur);
            let ghost oi = i;
            let ghost oj = j;
            let next: MemoryRange;
            if j == b.len() || (i < a.len() && a[i].gpa <= b[j].gpa) {
                next = a[i];
                i = i + 1;
            } else {
                next = b[j];
                j = j + 1;
            }
            proof {
                assert(range_fits(next));
                assert(range_fits(old_full[old_full.len() - 1]));
                if i < sa.len() {
                    assert(next.gpa <= sa[i as int].gpa);
                }
                if j < sb.len() {
                    assert(next.gpa <= sb[j as int].gpa);
                }
            }
            match MemoryRange::try_merge(cur, next) {
                Some(merged) => {
                    proof {
                        let full = out@.push(merged);
                        assert forall|k: int, l: int|
                            0 <= k < l < full.len() implies range_end(#[trigger] full[k]) < (
                        #[trigger] full[l]).gpa by {
                            assert(old_full[k] == full[k] || k == full.len() - 1);
                            if l == full.len() - 1 {
                                assert(range_end(old_full[k]) < old_full[l].gpa);
                            } else {
                                assert(old_full[l] == full[l]);
                                assert(old_full[k] == full[k]);
                            }
                        }
                        assert forall|k: int| 0 <= k < full.len() implies #[trigger] range_fits(
                            full[k],
                        ) by {
                            if k < full.len() - 1 {
                                assert(old_full[k] == full[k]);
                            }
                        }
                        assert forall|x: int|
                            #[trigger] touches(out@.push(merged), x) == (touches(
                                sa.take(i as int),
                                x,
                            ) || touches(sb.take(j as int), x)) by {
                            lemma_touches_push(out@, merged, x);
                            lemma_touches_push(out@, cur, x);
                            if i > oi {
                                lemma_touches_take_step(sa, oi as int, x);
                            } else {
                                lemma_touches_take_step(sb, oj as int, x);
                            }
                        }
                    }
                    cur = merged;
                },
                None => {
                    proof {
                        let full = out@.push(cur).push(next);
                        assert forall|k: int, l: int|
                            0 <= k < l < full.len() implies range_end(#[trigger] full[k]) < (
                        #[trigger] full[l]).gpa by {
                            assert(full[k] == old_full[k]);
                            if l == full.len() - 1 {
                                if k < old_full.len() - 1 {
                                    assert(range_end(old_full[k]) < old_full[old_full.len()
                                        - 1].gpa);
                                }
                            } else {
                                assert(full[l] == old_full[l]);
                            }
                        }
                        assert forall|k: int| 0 <= k < full.len() implies #[trigger] range_fits(
                            full[k],
                        ) by {
                            if k < full.len() - 1 {
                                assert(old_full[k] == full[k]);
                            }
                        }
                        assert forall|x: int|
                            #[trigger] touches(out@.push(cur).push(next), x) == (touches(
                                sa.take(i as int),
                                x,
                            ) || touches(sb.take(j as int), x)) by {
                            lemma_touches_push(out@.push(cur), next, x);
                            if i > oi {
                                lemma_touches_take_step(sa, oi as int, x);
                            } else {
                                lemma_touches_take_step(sb, oj as int, x);
                            }
                        }
                    }
                    out.push(cur);
                    cur = next;
                },
            }
        }
        out.push(cur);
        proof {
            assert(sa.take(sa.len() as int) == sa);
            assert(sb.take(sb.len() as int) == sb);
            let full = out@;
            assert forall|k: int, l: int| 0 <= k < l < full.len() implies #[trigger] full[k].gpa
                <= #[trigger] full[l].gpa by {
                assert(range_end(full[k]) < full[l].gpa);
            }
        }
        self.data = out;
    }
}

/// Calls `slice::sort_unstable_by_key` with the start address as the key: the
/// ranges are kept, each as often as before, and come out in ascending order
/// of their start address. The order of ranges with equal start addresses is
/// not stated.
#[verifier::external_body]
fn sort_by_gpa(ranges: &mut Vec<MemoryRange>)
    ensures
        final(ranges)@.to_multiset() == old(ranges)@.to_multiset(),
        sorted_by_gpa(final(ranges)@),
{
    ranges.sort_unstable_by_key(|r| r.gpa);
}

/// Two sequences that hold the same ranges, each as often, cover the same
/// points, and one has only fitting ranges exactly when the other has.
proof fn lemma_permutation_keeps_cover(s: Seq<MemoryRange>, t: Seq<MemoryRange>)
    requires
        s.to_multiset() == t.to_multiset(),
    ensures
        forall|x: int| #[trigger] touches(s, x) == touches(t, x),
        ranges_fit(s) == ranges_fit(t),
{
    s.to_multiset_ensures();
    t.to_multiset_ensures();
    assert forall|x: int| #[trigger] touches(s, x) == touches(t, x) by {
        if touches(s, x) {
            let i = choose|i: int| 0 <= i < s.len() && #[trigger] closed_contains(s[i], x);
            assert(s.contains(s[i]));
            assert(s.to_multiset().count(s[i]) > 0);
            assert(t.to_multiset().count(s[i]) > 0);
            assert(t.contains(s[i]));
            let j = choose|j: int| 0 <= j < t.len() && t[j] == s[i];
            assert(closed_contains(t[j], x));
        }
        if touches(t, x) {
            let i = choose|i: int| 0 <= i < t.len() && #[trigger] closed_contains(t[i], x);
            assert(t.contains(t[i]));
            assert(t.to_multiset().count(t[i]) > 0);
            assert(s.to_multiset().count(t[i]) > 0);
            assert(s.contains(t[i]));
            let j = choose|j: int| 0 <= j < s.len() && s[j] == t[i];
            assert(closed_contains(s[j], x));
        }
    }
    if ranges_fit(s) {
        assert forall|i: int| 0 <= i < t.len() implies #[trigger] range_fits(t[i]) by {
            assert(t.contains(t[i]));
            assert(t.to_multiset().count(t[i]) > 0);
            assert(s.to_multiset().count(t[i]) > 0);
            assert(s.contains(t[i]));
            let j = choose|j: int| 0 <= j < s.len() && s[j] == t[i];
            assert(range_fits(s[j]));
        }
    }
    if ranges_fit(t) {
        assert forall|i: int| 0 <= i < s.len() implies #[trigger] range_fits(s[i]) by {
            assert(s.contains(s[i]));
            assert(s.to_multiset().count(s[i]) > 0);
            assert(t.to_multiset().count(s[i]) > 0);
            assert(t.contains(s[i]));
            let j = choose|j: int| 0 <= j < t.len() && t[j] == s[i];
            assert(range_fits(t[j]));
        }
    }
}

/// The sum of the lengths of the last `k` ranges of `d`.
pub open spec fn suffix_length(d: Seq<MemoryRange>, k: nat) -> int
    decreases k,
{
    if k == 0 || k > d.len() {
        0
    } else {
        suffix_length(d, (k - 1) as nat) + d[d.len() - k].length
    }
}

/// One step of partitioning, in which `k` whole ranges are taken from the end
/// of `d`: `out` is the chunk produced and `d2` what remains of `d`.
///
/// Whole ranges are taken from the end of `d` while the chunk is not full and
/// `d` is not exhausted. A range that does not fit into the chunk any more is
/// split: its upper part completes the chunk, its lower part stays in `d2`.
pub open spec fn chunk_taken(
    d: Seq<MemoryRange>,
    c: int,
    k: nat,
    d2: Seq<MemoryRange>,
    out: Seq<MemoryRange>,
) -> bool {
    let n = d.len();
    &&& k <= n
    &&& forall|k2: nat| k2 < k ==> #[trigger] suffix_length(d, k2) < c
    &&& suffix_length(d, k) <= c
    &&& forall|t: int| 0 <= t < k ==> #[trigger] out[t] == d[n - 1 - t]
    &&& {
        ||| {
            &&& out.len() == k
            &&& d2 == d.take(n - k)
            &&& (k == n || suffix_length(d, k) == c)
        }
        ||| {
            &&& k < n
            &&& suffix_length(d, k) < c
            &&& suffix_length(d, k + 1) > c
            &&& out.len() == k + 1
            &&& d2 == d.take(n - k - 1).push(
                MemoryRange { gpa: d[n - k - 1].gpa, length: (suffix_length(d, k + 1) - c) as u64 },
            )
            &&& out[k as int] == MemoryRange {
                gpa: (d[n - k - 1].gpa + suffix_length(d, k + 1) - c) as u64,
                length: (c - suffix_length(d, k)) as u64,
            }
        }
    }
}

/// One step of partitioning `d` into chunks of at most `c` bytes produces the
/// chunk `out` and leaves `d2`.
pub open spec fn chunk_step(
    d: Seq<MemoryRange>,
    c: int,
    d2: Seq<MemoryRange>,
    out: Seq<MemoryRange>,
) -> bool {
    exists|k: nat| #[trigger] chunk_taken(d, c, k, d2, out)
}

/// `states` records what remains after each step of partitioning `d` into
/// `chunks`: each step produces one non-empty chunk, and a last step from the
/// final state produces nothing.
pub open spec fn partition_trace(
    d: Seq<MemoryRange>,
    c: int,
    states: Seq<Seq<MemoryRange>>,
    chunks: Seq<Seq<MemoryRange>>,
) -> bool {
    &&& states.len() == chunks.len() + 1
    &&& states[0] == d
    &&& forall|i: int|
        0 <= i < chunks.len() ==> chunks[i].len() > 0 && #[trigger] chunk_step(
            states[i],
            c,
            states[i + 1],
            chunks[i],
        )
    &&& chunk_step(states.last(), c, states.last(), Seq::empty())
}

/// `chunks` are the chunks, in order, of partitioning `d` into chunks of at
/// most `c` bytes.
pub open spec fn partition_of(d: Seq<MemoryRange>, c: int, chunks: Seq<Seq<MemoryRange>>) -> bool {
    exists|states: Seq<Seq<MemoryRange>>| #[trigger] partition_trace(d, c, states, chunks)
}

proof fn lemma_suffix_length_nonneg(d: Seq<MemoryRange>, k: nat)
    ensures
        suffix_length(d, k) >= 0,
    decreases k,
{
    if k > 0 {
        lemma_suffix_length_nonneg(d, (k - 1) as nat);
    }
}

proof fn lemma_total_length_split(d: Seq<MemoryRange>, m: nat)
    requires
        m <= d.len(),
    ensures
        total_length(d) == total_length(d.take(d.len() - m)) + suffix_length(d, m),
    decreases m,
{
    let n = d.len();
    if m == 0 {
        assert(d.take(n as int) == d);
    } else {
        lemma_total_length_split(d, (m - 1) as nat);
        assert(d.take(n - m + 1).drop_last() == d.take(n - m));
        assert(d.take(n - m + 1).last() == d[n - m]);
    }
}

proof fn lemma_chunk_step_decreases(d: Seq<MemoryRange>, c: int, d2: Seq<MemoryRange>, out: Seq<MemoryRange>)
    requires
        chunk_step(d, c, d2, out),
        out.len() > 0,
    ensures
        total_length(d2) < total_length(d) || (total_length(d2) == total_length(d) && d2.len()
            < d.len()),
        total_length(d2) <= total_length(d),
{
    let k = choose|k: nat| #[trigger] chunk_taken(d, c, k, d2, out);
    let n = d.len();
    lemma_suffix_length_nonneg(d, k);
    lemma_total_length_split(d, k);
    if out.len() == k && d2 == d.take(n - k) {
    } else {
        lemma_total_length_split(d, k + 1);
        let left = d.take(n - k - 1);
        assert(d2.drop_last() == left);
    }
}

/// The number of bytes in all the given chunks.
pub open spec fn chunks_length(chunks: Seq<Seq<MemoryRange>>) -> int
    decreases chunks.len(),
{
    if chunks.len() == 0 {
        0
    } else {
        chunks_length(chunks.drop_last()) + total_length(chunks.last())
    }
}

proof fn lemma_taken_prefix_length(d: Seq<MemoryRange>, out: Seq<MemoryRange>, k: nat)
    requires
        k <= d.len(),
        k <= out.len(),
        forall|t: int| 0 <= t < k ==> #[trigger] out[t] == d[d.len() - 1 - t],
    ensures
        total_length(out.take(k as int)) == suffix_length(d, k),
    decreases k,
{
    if k > 0 {
        lemma_taken_prefix_length(d, out, (k - 1) as nat);
        assert(out.take(k as int).drop_last() == out.take(k - 1));
        assert(out.take(k as int).last() == out[k - 1]);
    }
}

/// One partitioning step moves bytes from the data into the chunk without
/// losing or adding any, never puts more than `c` bytes into the chunk, and
/// fills the chunk completely unless it takes all of the data.
proof fn lemma_chunk_step_sizes(d: Seq<MemoryRange>, c: int, d2: Seq<MemoryRange>, out: Seq<MemoryRange>)
    requires
        chunk_step(d, c, d2, out),
    ensures
        total_length(out) <= c,
        total_length(d) == total_length(d2) + total_length(out),
        d2.len() > 0 ==> total_length(out) == c,
        c > 0 && d.len() > 0 ==> out.len() > 0,
{
    let k = choose|k: nat| #[trigger] chunk_taken(d, c, k, d2, out);
    let n = d.len();
    lemma_taken_prefix_length(d, out, k);
    lemma_total_length_split(d, k);
    if out.len() == k && d2 == d.take(n - k) {
        assert(out.take(k as int) == out);
        if k == n {
            assert(d2.len() == 0);
        }
    } else {
        lemma_total_length_split(d, k + 1);
        assert(out.drop_last() == out.take(k as int));
        assert(d2.drop_last() == d.take(n - k - 1));
    }
}

/// After `i` steps, the bytes moved into chunks plus those that remain are the
/// bytes of the table, and every chunk before the last one is full.
proof fn lemma_trace_prefix(
    d: Seq<MemoryRange>,
    c: int,
    states: Seq<Seq<MemoryRange>>,
    chunks: Seq<Seq<MemoryRange>>,
    i: int,
)
    requires
        partition_trace(d, c, states, chunks),
        0 <= i <= chunks.len(),
    ensures
        total_length(d) == total_length(states[i]) + chunks_length(chunks.take(i)),
        forall|t: int| 0 <= t < i && t < chunks.len() - 1 ==> total_length(#[trigger] chunks[t]) == c,
    decreases i,
{
    if i == 0 {
        assert(chunks.take(0) == Seq::<Seq<MemoryRange>>::empty());
    } else {
        let j = i - 1;
        lemma_trace_prefix(d, c, states, chunks, j);
        assert(chunk_step(states[j], c, states[j + 1], chunks[j]));
        assert(chunks[j].len() > 0);
        lemma_chunk_step_sizes(states[j], c, states[j + 1], chunks[j]);
        assert(chunks.take(i).drop_last() == chunks.take(i - 1));
        if j < chunks.len() - 1 {
            assert(chunk_step(states[i], c, states[i + 1], chunks[i]));
        assert(chunks[i].len() > 0);
            lemma_chunk_step_sizes(states[i], c, states[i + 1], chunks[i]);
            if states[i].len() == 0 {
                let k = choose|k: nat| #[trigger] chunk_taken(states[i], c, k, states[i + 1], chunks[i]);
                assert(k == 0);
            }
        }
    }
}

/// Partitioning moves every byte of the table into exactly one chunk, puts
/// at most `c` bytes into each chunk, and fills every chunk but the last one
/// completely. A chunk size of zero produces no chunk at all.
pub proof fn lemma_partition_sizes(d: Seq<MemoryRange>, c: int, chunks: Seq<Seq<MemoryRange>>)
    requires
        partition_of(d, c, chunks),
    ensures
        forall|i: int| 0 <= i < chunks.len() ==> total_length(#[trigger] chunks[i]) <= c,
        forall|i: int| 0 <= i < chunks.len() - 1 ==> total_length(#[trigger] chunks[i]) == c,
        c > 0 ==> chunks_length(chunks) == total_length(d),
        c <= 0 ==> chunks.len() == 0,
{
    let states = choose|states: Seq<Seq<MemoryRange>>| #[trigger] partition_trace(d, c, states, chunks);
    assert forall|i: int| 0 <= i < chunks.len() implies total_length(#[trigger] chunks[i]) <= c by {
        lemma_chunk_step_sizes(states[i], c, states[i + 1], chunks[i]);
    }
    lemma_trace_prefix(d, c, states, chunks, chunks.len() as int);
    assert(chunks.take(chunks.len() as int) == chunks);
    let last = states.last();
    lemma_chunk_step_sizes(last, c, last, Seq::empty());
    if c > 0 {
        assert(last.len() == 0);
    }
    if c <= 0 && chunks.len() > 0 {
        let z: int = 0;
        assert(chunk_step(states[z], c, states[z + 1], chunks[z]));
        assert(chunks[z].len() > 0);
        let k = choose|k: nat| #[trigger] chunk_taken(states[z], c, k, states[z + 1], chunks[z]);
        assert(suffix_length(states[z], 0) == 0);
        lemma_suffix_length_nonneg(states[z], k);
        if k > 0 {
            assert(suffix_length(states[z], 0) < c);
        }
    }
}

/// Whether the range holds the byte at address `x`: 1 if it does, 0 if not.
pub open spec fn holds_address(r: MemoryRange, x: int) -> int {
    if r.gpa <= x < range_end(r) {
        1
    } else {
        0
    }
}

/// How many ranges of `s` hold the byte at address `x`.
pub open spec fn address_count(s: Seq<MemoryRange>, x: int) -> int
    decreases s.len(),
{
    if s.len() == 0 {
        0
    } else {
        address_count(s.drop_last(), x) + holds_address(s.last(), x)
    }
}

/// How many ranges of all the given chunks hold the byte at address `x`.
pub open spec fn chunks_address_count(chunks: Seq<Seq<MemoryRange>>, x: int) -> int
    decreases chunks.len(),
{
    if chunks.len() == 0 {
        0
    } else {
        chunks_address_count(chunks.drop_last(), x) + address_count(chunks.last(), x)
    }
}

/// How many of the last `k` ranges of `d` hold the byte at address `x`.
spec fn suffix_address_count(d: Seq<MemoryRange>, k: nat, x: int) -> int
    decreases k,
{
    if k == 0 || k > d.len() {
        0
    } else {
        suffix_address_count(d, (k - 1) as nat, x) + holds_address(d[d.len() - k], x)
    }
}

proof fn lemma_address_count_split(d: Seq<MemoryRange>, m: nat, x: int)
    requires
        m <= d.len(),
    ensures
        address_count(d, x) == address_count(d.take(d.len() - m), x) + suffix_address_count(d, m, x),
    decreases m,
{
    let n = d.len();
    if m == 0 {
        assert(d.take(n as int) == d);
    } else {
        lemma_address_count_split(d, (m - 1) as nat, x);
        assert(d.take(n - m + 1).drop_last() == d.take(n - m));
        assert(d.take(n - m + 1).last() == d[n - m]);
    }
}

proof fn lemma_taken_prefix_count(d: Seq<MemoryRange>, out: Seq<MemoryRange>, k: nat, x: int)
    requires
        k <= d.len(),
        k <= out.len(),
        forall|t: int| 0 <= t < k ==> #[trigger] out[t] == d[d.len() - 1 - t],
    ensures
        address_count(out.take(k as int), x) == suffix_address_count(d, k, x),
    decreases k,
{
    if k > 0 {
        lemma_taken_prefix_count(d, out, (k - 1) as nat, x);
        assert(out.take(k as int).drop_last() == out.take(k - 1));
        assert(out.take(k as int).last() == out[k - 1]);
    }
}

/// One partitioning step moves each byte address from the data into the
/// chunk or leaves it in the data, never both, and adds none.
proof fn lemma_chunk_step_addresses(
    d: Seq<MemoryRange>,
    c: int,
    d2: Seq<MemoryRange>,
    out: Seq<MemoryRange>,
    x: int,
)
    requires
        chunk_step(d, c, d2, out),
        ranges_in_address_space(d),
    ensures
        address_count(d, x) == address_count(d2, x) + address_count(out, x),
        ranges_in_address_space(d2),
        ranges_in_address_space(out),
{
    let k = choose|k: nat| #[trigger] chunk_taken(d, c, k, d2, out);
    let n = d.len();
    lemma_taken_prefix_count(d, out, k, x);
    lemma_address_count_split(d, k, x);
    if out.len() == k && d2 == d.take(n - k) {
        assert(out.take(k as int) == out);
        assert forall|i: int| 0 <= i < d2.len() implies #[trigger] range_in_address_space(d2[i]) by {
            assert(d2[i] == d[i]);
        }
        assert forall|i: int| 0 <= i < out.len() implies #[trigger] range_in_address_space(out[i]) by {
            assert(out[i] == d[n - 1 - i]);
        }
    } else {
        lemma_address_count_split(d, k + 1, x);
        let r = d[n - k - 1];
        assert(range_in_address_space(r));
        assert(suffix_length(d, k + 1) == suffix_length(d, k) + r.length);
        let lo = suffix_length(d, k + 1) - c;
        assert(0 < lo < r.length);
        assert(r.gpa + lo <= u64::MAX);
        assert(d2.last() == MemoryRange { gpa: r.gpa, length: lo as u64 });
        assert(out.last() == MemoryRange { gpa: (r.gpa + lo) as u64, length: (r.length - lo) as u64 });
        assert(holds_address(r, x) == holds_address(d2.last(), x) + holds_address(out.last(), x));
        assert(out.drop_last() == out.take(k as int));
        assert(d2.drop_last() == d.take(n - k - 1));
        assert forall|i: int| 0 <= i < d2.len() implies #[trigger] range_in_address_space(d2[i]) by {
            if i < d2.len() - 1 {
                assert(d2[i] == d[i]);
            }
        }
        assert forall|i: int| 0 <= i < out.len() implies #[trigger] range_in_address_space(out[i]) by {
            if i < k {
                assert(out[i] == d[n - 1 - i]);
            }
        }
    }
}

/// Partitioning, with a positive chunk size, a table whose ranges lie within
/// the address space puts each byte address of the table into the chunks
/// exactly as often as the table holds it: nothing is lost and nothing is
/// duplicated.
pub proof fn lemma_partition_addresses(d: Seq<MemoryRange>, c: int, chunks: Seq<Seq<MemoryRange>>)
    requires
        partition_of(d, c, chunks),
        c > 0,
        ranges_in_address_space(d),
    ensures
        forall|x: int| #[trigger] chunks_address_count(chunks, x) == address_count(d, x),
{
    let states = choose|states: Seq<Seq<MemoryRange>>| #[trigger] partition_trace(d, c, states, chunks);
    assert forall|x: int| #[trigger] chunks_address_count(chunks, x) == address_count(d, x) by {
        lemma_trace_addresses(d, c, states, chunks, chunks.len() as int, x);
        assert(chunks.take(chunks.len() as int) == chunks);
        let last = states.last();
        lemma_chunk_step_sizes(last, c, last, Seq::empty());
        assert(last.len() == 0);
    }
}

proof fn lemma_trace_addresses(
    d: Seq<MemoryRange>,
    c: int,
    states: Seq<Seq<MemoryRange>>,
    chunks: Seq<Seq<MemoryRange>>,
    i: int,
    x: int,
)
    requires
        partition_trace(d, c, states, chunks),
        0 <= i <= chunks.len(),
        ranges_in_address_space(d),
    ensures
        address_count(d, x) == address_count(states[i], x) + chunks_address_count(chunks.take(i), x),
        ranges_in_address_space(states[i]),
    decreases i,
{
    if i == 0 {
        assert(chunks.take(0) == Seq::<Seq<MemoryRange>>::empty());
    } else {
        let j = i - 1;
        lemma_trace_addresses(d, c, states, chunks, j, x);
        assert(chunk_step(states[j], c, states[j + 1], chunks[j]));
        lemma_chunk_step_addresses(states[j], c, states[j + 1], chunks[j], x);
        assert(chunks.take(i).drop_last() == chunks.take(i - 1));
        assert(chunks.take(i).last() == chunks[j]);
    }
}

/// Every range of `s` is at least one byte long.
pub open spec fn ranges_non_empty(s: Seq<MemoryRange>) -> bool {
    forall|i: int| 0 <= i < s.len() ==> (#[trigger] s[i]).length > 0
}

proof fn lemma_chunk_step_non_empty(d: Seq<MemoryRange>, c: int, d2: Seq<MemoryRange>, out: Seq<MemoryRange>)
    requires
        chunk_step(d, c, d2, out),
        ranges_non_empty(d),
    ensures
        ranges_non_empty(d2),
        ranges_non_empty(out),
{
    let k = choose|k: nat| #[trigger] chunk_taken(d, c, k, d2, out);
    let n = d.len();
    if out.len() == k && d2 == d.take(n - k) {
        assert forall|i: int| 0 <= i < d2.len() implies (#[trigger] d2[i]).length > 0 by {
            assert(d2[i] == d[i]);
        }
        assert forall|i: int| 0 <= i < out.len() implies (#[trigger] out[i]).length > 0 by {
            assert(out[i] == d[n - 1 - i]);
        }
    } else {
        let r = d[n - k - 1];
        assert(suffix_length(d, k + 1) == suffix_length(d, k) + r.length);
        assert forall|i: int| 0 <= i < d2.len() implies (#[trigger] d2[i]).length > 0 by {
            if i < d2.len() - 1 {
                assert(d2[i] == d[i]);
            }
        }
        assert forall|i: int| 0 <= i < out.len() implies (#[trigger] out[i]).length > 0 by {
            if i < k {
                assert(out[i] == d[n - 1 - i]);
            }
        }
    }
}

proof fn lemma_trace_non_empty(
    d: Seq<MemoryRange>,
    c: int,
    states: Seq<Seq<MemoryRange>>,
    chunks: Seq<Seq<MemoryRange>>,
    i: int,
)
    requires
        partition_trace(d, c, states, chunks),
        0 <= i <= chunks.len(),
        ranges_non_empty(d),
    ensures
        ranges_non_empty(states[i]),
        forall|t: int| 0 <= t < i ==> ranges_non_empty(#[trigger] chunks[t]),
    decreases i,
{
    if i > 0 {
        let j = i - 1;
        lemma_trace_non_empty(d, c, states, chunks, j);
        assert(chunk_step(states[j], c, states[j + 1], chunks[j]));
        lemma_chunk_step_non_empty(states[j], c, states[j + 1], chunks[j]);
    }
}

proof fn lemma_total_length_positive(s: Seq<MemoryRange>)
    requires
        ranges_non_empty(s),
        s.len() > 0,
    ensures
        total_length(s) > 0,
    decreases s.len(),
{
    lemma_total_length_nonneg(s.drop_last());
    assert(s.last().length > 0);
}

proof fn lemma_full_chunks_length(chunks: Seq<Seq<MemoryRange>>, c: int, i: int)
    requires
        0 <= i <= chunks.len(),
        forall|t: int| 0 <= t < i ==> total_length(#[trigger] chunks[t]) == c,
    ensures
        chunks_length(chunks.take(i)) == i * c,
    decreases i,
{
    if i > 0 {
        lemma_full_chunks_length(chunks, c, i - 1);
        assert(chunks.take(i).drop_last() == chunks.take(i - 1));
        assert(chunks.take(i).last() == chunks[i - 1]);
        assert(total_length(chunks[i - 1]) == c);
        assert(i * c == (i - 1) * c + c) by (nonlinear_arith);
        assert(chunks_length(chunks.take(i)) == chunks_length(chunks.take(i - 1)) + c);
    } else {
        assert(chunks.take(0).len() == 0);
        assert(0 * c == 0);
    }
}

/// Partitioning a table of ranges that are each at least one byte long, with
/// a positive chunk size `c`, yields `ceil(S / c)` chunks for a table of `S`
/// bytes: the fewest that can hold it with at most `c` bytes each.
pub proof fn lemma_partition_count(d: Seq<MemoryRange>, c: int, chunks: Seq<Seq<MemoryRange>>)
    requires
        partition_of(d, c, chunks),
        c > 0,
        ranges_non_empty(d),
    ensures
        chunks.len() == (total_length(d) + c - 1) / c,
{
    lemma_partition_sizes(d, c, chunks);
    let states = choose|states: Seq<Seq<MemoryRange>>| #[trigger] partition_trace(d, c, states, chunks);
    let n = chunks.len() as int;
    let s = total_length(d);
    if n == 0 {
        assert(chunks_length(chunks) == 0);
        assert((0 + c - 1) / c == 0) by (nonlinear_arith)
            requires
                c > 0,
        ;
    } else {
        lemma_trace_non_empty(d, c, states, chunks, n);
        let j = n - 1;
        assert(chunk_step(states[j], c, states[j + 1], chunks[j]));
        assert(chunks[j].len() > 0);
        assert(ranges_non_empty(chunks[j]));
        lemma_total_length_positive(chunks[n - 1]);
        lemma_full_chunks_length(chunks, c, n - 1);
        assert(chunks.drop_last() == chunks.take(n - 1));
        let l = total_length(chunks[n - 1]);
        assert(s == (n - 1) * c + l);
        assert((s + c - 1) / c == n) by (nonlinear_arith)
            requires
                s == (n - 1) * c + l,
                0 < l <= c,
                n >= 1,
        ;
    }
}

/// Hands out the ranges of a table in chunks of at most `chunk_size` bytes.
///
/// A range may be split across several chunks. Ranges are taken from the end
/// of the table, so callers must not rely on the order in which chunks or
/// ranges come.
struct MemoryRangeTableIterator {
    chunk_size: u64,
    data: Vec<MemoryRange>,
}

impl MemoryRangeTableIterator {
    /// An iterator that partitions `table` into chunks of at most
    /// `chunk_size` bytes.
    fn new(table: MemoryRangeTable, chunk_size: u64) -> (r: Self)
        ensures
            r.chunk_size == chunk_size,
            r.data@ == table@,
    {
        MemoryRangeTableIterator { chunk_size, data: table.data }
    }

    /// The next chunk: whole ranges taken from the end of the remaining data
    /// and, where the last one does not fit, its upper part. `None` once the
    /// data is exhausted (or at once, for a chunk size of zero).
    fn next(&mut self) -> (r: Option<MemoryRangeTable>)
        requires
            ranges_in_address_space(old(self).data@),
        ensures
            final(self).chunk_size == old(self).chunk_size,
            ranges_in_address_space(final(self).data@),
            match r {
                Some(t) => t@.len() > 0 && chunk_step(
                    old(self).data@,
                    old(self).chunk_size as int,
                    final(self).data@,
                    t@,
                ),
                None => chunk_step(
                    old(self).data@,
                    old(self).chunk_size as int,
                    final(self).data@,
                    Seq::empty(),
                ),
            },
    {
        let ghost d = self.data@;
        let ghost n = d.len();
        let ghost c = self.chunk_size as int;
        let mut ranges: Vec<MemoryRange> = Vec::new();
        let mut ranges_size: u64 = 0;
        let ghost mut k: nat = 0;
        loop
            invariant_except_break
                self.chunk_size == c,
                k <= n,
                self.data@ == d.take(n - k),
                ranges@.len() == k,
                forall|t: int| 0 <= t < k ==> #[trigger] ranges@[t] == d[n - 1 - t],
                ranges_size == suffix_length(d, k),
                ranges_size <= self.chunk_size,
                forall|k2: nat| k2 < k ==> #[trigger] suffix_length(d, k2) < c,
                ranges_in_address_space(d),
                n == d.len(),
            ensures
                self.chunk_size == c,
                chunk_step(d, c, self.data@, ranges@),
                ranges_in_address_space(self.data@),
            decreases self.data@.len(),
        {
            if ranges_size == self.chunk_size || self.data.len() == 0 {
                proof {
                    assert(chunk_taken(d, c, k, self.data@, ranges@));
                    assert forall|i: int| 0 <= i < self.data@.len() implies #[trigger] range_in_address_space(
                        self.data@[i],
                    ) by {
                        assert(self.data@[i] == d[i]);
                    }
                }
                break;
            }
            let range = match self.data.pop() {
                Some(r) => r,
                None => { break; },
            };
            proof {
                assert(range == d[n - k - 1]);
                assert(range_in_address_space(d[n - k - 1]));
                assert(suffix_length(d, k + 1) == suffix_length(d, k) + range.length);
            }
            proof {
                assert(self.data@ == d.take(n - k - 1));
            }
            if range.length > self.chunk_size - ranges_size {
                let returned_bytes = self.chunk_size - ranges_size;
                let leftover_bytes = range.length - returned_bytes;
                self.data.push(MemoryRange { gpa: range.gpa, length: leftover_bytes });
                let next_range = MemoryRange { gpa: range.gpa + leftover_bytes, length: returned_bytes };
                ranges.push(next_range);
                proof {
                    assert(ranges@[k as int] == next_range);
                    assert forall|t: int| 0 <= t < k implies #[trigger] ranges@[t] == d[n - 1 - t] by {
                        assert(ranges@[t] == ranges@.drop_last()[t]);
                    }
                    assert(self.data@ == d.take(n - k - 1).push(
                        MemoryRange { gpa: d[n - k - 1].gpa, length: (suffix_length(d, k + 1) - c) as u64 },
                    ));
                    assert(chunk_taken(d, c, k, self.data@, ranges@));
                    assert forall|i: int| 0 <= i < self.data@.len() implies #[trigger] range_in_address_space(
                        self.data@[i],
                    ) by {
                        if i < self.data@.len() - 1 {
                            assert(self.data@[i] == d[i]);
                        }
                    }
                }
                break;
            }
            ranges_size = ranges_size + range.length;
            ranges.push(range);
            proof {
                k = k + 1;
                assert(self.data@ == d.take(n - k));
            }
        }
        if ranges.len() == 0 {
            assert(ranges@ == Seq::<MemoryRange>::empty());
            None
        } else {
            Some(MemoryRangeTable { data: ranges })
        }
    }
}

impl MemoryRangeTable {
    /// Partitions the table into chunks of at most `chunk_size` bytes, in the
    /// order in which [`MemoryRangeTableIterator`] hands them out.
    pub fn partition(self, chunk_size: u64) -> (r: Vec<MemoryRangeTable>)
        requires
            ranges_in_address_space(self@),
        ensures
            partition_of(self@, chunk_size as int, r@.map_values(|t: MemoryRangeTable| t@)),
    {
        let ghost d = self@;
        let mut it = MemoryRangeTableIterator::new(self, chunk_size);
        let mut out: Vec<MemoryRangeTable> = Vec::new();
        let ghost mut states: Seq<Seq<MemoryRange>> = seq![d];
        loop
            invariant_except_break
                it.chunk_size == chunk_size,
                ranges_in_address_space(it.data@),
                states.len() == out@.len() + 1,
                states[0] == d,
                states.last() == it.data@,
                forall|i: int|
                    0 <= i < out@.len() ==> (#[trigger] out@[i])@.len() > 0 && chunk_step(
                        states[i],
                        chunk_size as int,
                        states[i + 1],
                        out@[i]@,
                    ),
            ensures
                partition_trace(d, chunk_size as int, states, out@.map_values(|t: MemoryRangeTable| t@)),
            decreases total_length(it.data@), it.data@.len(),
        {
            let ghost before = it.data@;
            match it.next() {
                None => {
                    proof {
                        let chunks = out@.map_values(|t: MemoryRangeTable| t@);
                        assert forall|i: int| 0 <= i < chunks.len() implies chunks[i].len() > 0
                            && #[trigger] chunk_step(states[i], chunk_size as int, states[i + 1], chunks[i])
                            by {
                            assert(chunks[i] == out@[i]@);
                        }
                        let k = choose|k: nat| #[trigger] chunk_taken(before, chunk_size as int, k, it.data@, Seq::empty());
                        assert(k == 0);
                        assert(before.take(before.len() as int) == before);
                        assert(it.data@ == before);
                    }
                    break;
                },
                Some(t) => {
                    proof {
                        lemma_chunk_step_decreases(before, chunk_size as int, it.data@, t@);
                        lemma_total_length_nonneg(it.data@);
                        states = states.push(it.data@);
                    }
                    out.push(t);
                    proof {
                        assert forall|i: int| 0 <= i < out@.len() implies (#[trigger] out@[i])@.len() > 0
                            && chunk_step(states[i], chunk_size as int, states[i + 1], out@[i]@) by {
                            if i < out@.len() - 1 {
                                assert(states[i] == states.drop_last()[i]);
                            }
                        }
                    }
                },
            }
        }
        out
    }
}

/// Page `p` is marked dirty in `bitmap`: bit `p % 64` of word `p / 64`,
/// counting from the least significant bit, is set.
pub open spec fn page_dirty(bitmap: Seq<u64>, p: int) -> bool {
    &&& 0 <= p < 64 * bitmap.len()
    &&& (bitmap[p / 64] >> ((p % 64) as u64)) & 1 == 1
}

/// Pages `s` up to (not including) `e` form a maximal run of dirty pages.
pub open spec fn is_dirty_run(bitmap: Seq<u64>, s: int, e: int) -> bool {
    &&& 0 <= s < e <= 64 * bitmap.len()
    &&& forall|q: int| s <= q < e ==> #[trigger] page_dirty(bitmap, q)
    &&& (s == 0 || !page_dirty(bitmap, s - 1))
    &&& !page_dirty(bitmap, e)
}

/// Page `q` lies in the run `r` of pages.
pub open spec fn run_holds(r: (int, int), q: int) -> bool {
    r.0 <= q < r.1
}

/// Some run of `runs` holds page `q`.
pub open spec fn covered_by_runs(runs: Seq<(int, int)>, q: int) -> bool {
    exists|i: int| 0 <= i < runs.len() && #[trigger] run_holds(runs[i], q)
}

/// `runs` are the maximal runs of dirty pages of `bitmap`, in ascending order.
pub open spec fn dirty_runs(bitmap: Seq<u64>, runs: Seq<(int, int)>) -> bool {
    &&& forall|i: int| 0 <= i < runs.len() ==> is_dirty_run(bitmap, #[trigger] runs[i].0, runs[i].1)
    &&& forall|i: int, j: int| 0 <= i < j < runs.len() ==> (#[trigger] runs[i]).1 < (#[trigger] runs[j]).0
    &&& forall|q: int| #[trigger] page_dirty(bitmap, q) ==> covered_by_runs(runs, q)
}

/// The memory range of a run of pages, for pages of `page_size` bytes from
/// `start_addr` on.
pub open spec fn run_range(start_addr: u64, page_size: u64, run: (int, int)) -> MemoryRange {
    MemoryRange {
        gpa: (start_addr + run.0 * page_size) as u64,
        length: ((run.1 - run.0) * page_size) as u64,
    }
}

/// Each maximal run of dirty pages has a start address and a length in bytes
/// that fit in a `u64`.
pub open spec fn dirty_runs_fit(bitmap: Seq<u64>, start_addr: u64, page_size: u64) -> bool {
    forall|s: int, e: int|
        #[trigger] is_dirty_run(bitmap, s, e) ==> start_addr + s * page_size <= u64::MAX && (e - s)
            * page_size <= u64::MAX
}

/// What the scan of a bitmap knows after looking at pages `0..p`: `runs` are
/// the finished runs; when `have` holds, pages `s..e` are the run seen last,
/// which may still grow.
spec fn scan_inv(bitmap: Seq<u64>, p: int, runs: Seq<(int, int)>, have: bool, s: int, e: int) -> bool {
    &&& 0 <= p <= 64 * bitmap.len()
    &&& forall|i: int| 0 <= i < runs.len() ==> is_dirty_run(bitmap, #[trigger] runs[i].0, runs[i].1)
    &&& forall|i: int, j: int| 0 <= i < j < runs.len() ==> (#[trigger] runs[i]).1 < (#[trigger] runs[j]).0
    &&& !have ==> runs.len() == 0 && forall|q: int| 0 <= q < p ==> !#[trigger] page_dirty(bitmap, q)
    &&& have ==> {
        &&& 0 <= s < e <= p
        &&& forall|q: int| s <= q < e ==> #[trigger] page_dirty(bitmap, q)
        &&& (s == 0 || !page_dirty(bitmap, s - 1))
        &&& forall|q: int| e <= q < p ==> !#[trigger] page_dirty(bitmap, q)
        &&& forall|i: int| 0 <= i < runs.len() ==> (#[trigger] runs[i]).1 < s
    }
    &&& forall|q: int|
        0 <= q < p && #[trigger] page_dirty(bitmap, q) ==> (have && s <= q < e) || covered_by_runs(
            runs,
            q,
        )
}

proof fn lemma_covered_push(runs: Seq<(int, int)>, r: (int, int), q: int)
    ensures
        covered_by_runs(runs, q) ==> covered_by_runs(runs.push(r), q),
        run_holds(r, q) ==> covered_by_runs(runs.push(r), q),
{
    if covered_by_runs(runs, q) {
        let i = choose|i: int| 0 <= i < runs.len() && #[trigger] run_holds(runs[i], q);
        assert(runs.push(r)[i] == runs[i]);
    }
    if run_holds(r, q) {
        assert(runs.push(r)[runs.len() as int] == r);
    }
}

proof fn lemma_page_index(i: int, j: int)
    requires
        0 <= i,
        0 <= j < 64,
    ensures
        (64 * i + j) / 64 == i,
        (64 * i + j) % 64 == j,
{
    vstd::arithmetic::div_mod::lemma_fundamental_div_mod_converse(64 * i + j, 64, i, j);
}

/// Closes the run `s..e` found last: it is a maximal run, and its range is
/// appended.
proof fn lemma_close_run(bitmap: Seq<u64>, p: int, runs: Seq<(int, int)>, s: int, e: int)
    requires
        scan_inv(bitmap, p, runs, true, s, e),
        e < p || p == 64 * bitmap.len(),
    ensures
        is_dirty_run(bitmap, s, e),
        forall|i: int, j: int|
            0 <= i < j < runs.push((s, e)).len() ==> (#[trigger] runs.push((s, e))[i]).1 < (
            #[trigger] runs.push((s, e))[j]).0,
        forall|i: int|
            0 <= i < runs.push((s, e)).len() ==> is_dirty_run(
                bitmap,
                #[trigger] runs.push((s, e))[i].0,
                runs.push((s, e))[i].1,
            ),
        forall|q: int|
            0 <= q < p && #[trigger] page_dirty(bitmap, q) ==> covered_by_runs(runs.push((s, e)), q),
{
    let rs = runs.push((s, e));
    assert forall|i: int, j: int| 0 <= i < j < rs.len() implies (#[trigger] rs[i]).1 < (
    #[trigger] rs[j]).0 by {
        if j == rs.len() - 1 {
            assert(rs[i] == runs[i]);
        } else {
            assert(rs[i] == runs[i]);
            assert(rs[j] == runs[j]);
        }
    }
    assert forall|i: int| 0 <= i < rs.len() implies is_dirty_run(
        bitmap,
        #[trigger] rs[i].0,
        rs[i].1,
    ) by {
        if i < runs.len() {
            assert(rs[i] == runs[i]);
        }
    }
    assert forall|q: int| 0 <= q < p && #[trigger] page_dirty(bitmap, q) implies covered_by_runs(
        rs,
        q,
    ) by {
        lemma_covered_push(runs, (s, e), q);
        assert(run_holds((s, e), q) || covered_by_runs(runs, q));
    }
}

/// The memory ranges of the maximal runs of dirty pages of `bitmap`, in
/// ascending order.
fn dirty_ranges_iter(bitmap: &[u64], start_addr: u64, page_size: u64) -> (r: Vec<MemoryRange>)
    requires
        64 * bitmap@.len() <= u64::MAX,
        dirty_runs_fit(bitmap@, start_addr, page_size),
    ensures
        exists|runs: Seq<(int, int)>|
            {
                &&& #[trigger] dirty_runs(bitmap@, runs)
                &&& r@.len() == runs.len()
                &&& forall|i: int|
                    0 <= i < runs.len() ==> r@[i] == run_range(start_addr, page_size, runs[i])
            },
{
    let ghost bm = bitmap@;
    let mut out: Vec<MemoryRange> = Vec::new();
    let mut have: bool = false;
    let mut s: u64 = 0;
    let mut e: u64 = 0;
    let ghost mut runs: Seq<(int, int)> = Seq::empty();
    let mut i: usize = 0;
    while i < bitmap.len()
        invariant
            bm == bitmap@,
            64 * bm.len() <= u64::MAX,
            dirty_runs_fit(bm, start_addr, page_size),
            i <= bm.len(),
            scan_inv(bm, 64 * i, runs, have, s as int, e as int),
            out@.len() == runs.len(),
            forall|k: int| 0 <= k < runs.len() ==> out@[k] == run_range(start_addr, page_size, #[trigger] runs[k]),
        decreases bm.len() - i,
    {
        let w = bitmap[i];
        let mut j: u64 = 0;
        while j < 64
            invariant
                bm == bitmap@,
                64 * bm.len() <= u64::MAX,
                dirty_runs_fit(bm, start_addr, page_size),
                i < bm.len(),
                w == bm[i as int],
                j <= 64,
                scan_inv(bm, 64 * i + j, runs, have, s as int, e as int),
                out@.len() == runs.len(),
                forall|k: int| 0 <= k < runs.len() ==> out@[k] == run_range(start_addr, page_size, #[trigger] runs[k]),
            decreases 64 - j,
        {
            let p: u64 = 64 * (i as u64) + j;
            proof {
                lemma_page_index(i as int, j as int);
            }
            let dirty = (w >> j) & 1 == 1;
            assert(dirty == page_dirty(bm, p as int));
            if dirty {
                if have && e == p {
                    e = p + 1;
                } else if have {
                    proof {
                        lemma_close_run(bm, p as int, runs, s as int, e as int);
                    }
                    let gpa = start_addr + s * page_size;
                    let length = (e - s) * page_size;
                    out.push(MemoryRange { gpa, length });
                    proof {
                        runs = runs.push((s as int, e as int));
                    }
                    s = p;
                    e = p + 1;
                } else {
                    have = true;
                    s = p;
                    e = p + 1;
                }
            }
            j = j + 1;
            proof {
                assert(scan_inv(bm, 64 * i + j, runs, have, s as int, e as int));
            }
        }
        i = i + 1;
    }
    if have {
        proof {
            lemma_close_run(bm, (64 * bm.len()) as int, runs, s as int, e as int);
        }
        let gpa = start_addr + s * page_size;
        let length = (e - s) * page_size;
        out.push(MemoryRange { gpa, length });
        proof {
            runs = runs.push((s as int, e as int));
        }
    }
    proof {
        assert(dirty_runs(bm, runs));
    }
    out
}

impl MemoryRangeTable {
    /// Creates a table from a bitmap in which bit `i` (bit `i % 64` of word
    /// `i / 64`) marks page `i` as dirty. Consecutive dirty pages are merged
    /// into one range; only dirty pages are represented.
    pub fn from_dirty_bitmap(bitmap: &[u64], start_addr: u64, page_size: u64) -> (r: Self)
        requires
            64 * bitmap@.len() <= u64::MAX,
            dirty_runs_fit(bitmap@, start_addr, page_size),
        ensures
            exists|runs: Seq<(int, int)>|
                {
                    &&& #[trigger] dirty_runs(bitmap@, runs)
                    &&& r@.len() == runs.len()
                    &&& forall|i: int|
                        0 <= i < runs.len() ==> r@[i] == run_range(start_addr, page_size, runs[i])
                },
    {
        MemoryRangeTable { data: dirty_ranges_iter(bitmap, start_addr, page_size) }
    }
}

proof fn lemma_range_bytes_injective(a: MemoryRange, b: MemoryRange)
    requires
        range_bytes(a) == range_bytes(b),
    ensures
        a == b,
{
    lemma_auto_spec_u64_to_from_le_bytes();
    assert(range_bytes(a).subrange(0, 8) =~= spec_u64_to_le_bytes(a.gpa));
    assert(range_bytes(b).subrange(0, 8) =~= spec_u64_to_le_bytes(b.gpa));
    assert(range_bytes(a).subrange(8, 16) =~= spec_u64_to_le_bytes(a.length));
    assert(range_bytes(b).subrange(8, 16) =~= spec_u64_to_le_bytes(b.length));
    assert(spec_u64_from_le_bytes(spec_u64_to_le_bytes(a.gpa)) == a.gpa);
    assert(spec_u64_from_le_bytes(spec_u64_to_le_bytes(b.gpa)) == b.gpa);
    assert(spec_u64_from_le_bytes(spec_u64_to_le_bytes(a.length)) == a.length);
    assert(spec_u64_from_le_bytes(spec_u64_to_le_bytes(b.length)) == b.length);
}

/// A table read back with [`MemoryRangeTable::read_from`] from the bytes
/// that [`MemoryRangeTable::write_to`] wrote holds the ranges that were
/// written, and those bytes are as many as [`MemoryRangeTable::length`] says.
pub proof fn lemma_table_bytes_roundtrip(s1: Seq<MemoryRange>, s2: Seq<MemoryRange>)
    requires
        table_bytes(s1) == table_bytes(s2),
    ensures
        s1 == s2,
        table_bytes(s1).len() == 16 * s1.len(),
    decreases s1.len(),
{
    lemma_table_bytes_len(s1);
    lemma_table_bytes_len(s2);
    lemma_auto_spec_u64_to_from_le_bytes();
    if s1.len() > 0 {
        let n = s1.len() as int;
        let b1 = table_bytes(s1);
        lemma_table_bytes_len(s1.drop_last());
        lemma_table_bytes_len(s2.drop_last());
        assert(b1.subrange(0, 16 * (n - 1)) == table_bytes(s1.drop_last()));
        assert(b1.subrange(0, 16 * (n - 1)) == table_bytes(s2.drop_last()));
        assert(b1.subrange(16 * (n - 1), 16 * n) == range_bytes(s1.last()));
        assert(b1.subrange(16 * (n - 1), 16 * n) == range_bytes(s2.last()));
        lemma_table_bytes_roundtrip(s1.drop_last(), s2.drop_last());
        lemma_range_bytes_injective(s1.last(), s2.last());
        assert(s1 =~= s1.drop_last().push(s1.last()));
        assert(s2 =~= s2.drop_last().push(s2.last()));
    }
}

proof fn lemma_canonical_tail_touches(s: Seq<MemoryRange>, x: int)
    requires
        canonical(s),
        s.len() > 0,
    ensures
        touches(s.drop_first(), x) == (touches(s, x) && x > 2 * range_end(s[0])),
{
    let t = s.drop_first();
    if touches(t, x) {
        let i = choose|i: int| 0 <= i < t.len() && #[trigger] closed_contains(t[i], x);
        assert(t[i] == s[i + 1]);
        assert(range_end(s[0]) < s[i + 1].gpa);
    }
    if touches(s, x) && x > 2 * range_end(s[0]) {
        let i = choose|i: int| 0 <= i < s.len() && #[trigger] closed_contains(s[i], x);
        assert(i != 0);
        assert(t[i - 1] == s[i]);
    }
}

/// A canonical table is fully determined by the points it covers: two
/// canonical tables that cover the same points are the same table. So
/// merging two non-empty tables gives the same table in either order, and
/// merging a table into a canonical one that covers it already changes
/// nothing.
pub proof fn lemma_canonical_unique(s1: Seq<MemoryRange>, s2: Seq<MemoryRange>)
    requires
        canonical(s1),
        canonical(s2),
        forall|x: int| #[trigger] touches(s1, x) == touches(s2, x),
    ensures
        s1 == s2,
    decreases s1.len() + s2.len(),
{
    if s1.len() == 0 || s2.len() == 0 {
        if s1.len() > 0 {
            let p = 2 * s1[0].gpa;
            assert(closed_contains(s1[0], p));
            assert(touches(s1, p));
            assert(touches(s2, p));
        }
        if s2.len() > 0 {
            let p = 2 * s2[0].gpa;
            assert(closed_contains(s2[0], p));
            assert(touches(s2, p));
            assert(touches(s1, p));
        }
        assert(s1 =~= s2);
    } else {
        let a = s1[0];
        let b = s2[0];
        // The first ranges start at the smallest covered point.
        assert(closed_contains(a, 2 * a.gpa));
        assert(touches(s1, 2 * a.gpa));
        assert(touches(s2, 2 * a.gpa));
        let j = choose|j: int| 0 <= j < s2.len() && #[trigger] closed_contains(s2[j], 2 * a.gpa);
        if j > 0 {
            assert(range_end(s2[0]) < s2[j].gpa);
        }
        assert(closed_contains(b, 2 * b.gpa));
        assert(touches(s2, 2 * b.gpa));
        assert(touches(s1, 2 * b.gpa));
        let i = choose|i: int| 0 <= i < s1.len() && #[trigger] closed_contains(s1[i], 2 * b.gpa);
        if i > 0 {
            assert(range_end(s1[0]) < s1[i].gpa);
        }
        assert(a.gpa == b.gpa);
        // The first ranges end where the covered points first stop.
        if range_end(a) < range_end(b) {
            let y = 2 * range_end(a) + 1;
            assert(closed_contains(b, y));
            assert(touches(s2, y));
            assert(touches(s1, y));
            let k = choose|k: int| 0 <= k < s1.len() && #[trigger] closed_contains(s1[k], y);
            if k > 0 {
                assert(range_end(s1[0]) < s1[k].gpa);
            }
        }
        if range_end(b) < range_end(a) {
            let y = 2 * range_end(b) + 1;
            assert(closed_contains(a, y));
            assert(touches(s1, y));
            assert(touches(s2, y));
            let k = choose|k: int| 0 <= k < s2.len() && #[trigger] closed_contains(s2[k], y);
            if k > 0 {
                assert(range_end(s2[0]) < s2[k].gpa);
            }
        }
        assert(a == b);
        let t1 = s1.drop_first();
        let t2 = s2.drop_first();
        assert forall|k: int, l: int| 0 <= k < l < t1.len() implies range_end(#[trigger] t1[k]) < (
        #[trigger] t1[l]).gpa by {
            assert(t1[k] == s1[k + 1] && t1[l] == s1[l + 1]);
        }
        assert forall|k: int, l: int| 0 <= k < l < t2.len() implies range_end(#[trigger] t2[k]) < (
        #[trigger] t2[l]).gpa by {
            assert(t2[k] == s2[k + 1] && t2[l] == s2[l + 1]);
        }
        assert forall|x: int| #[trigger] touches(t1, x) == touches(t2, x) by {
            lemma_canonical_tail_touches(s1, x);
            lemma_canonical_tail_touches(s2, x);
        }
        lemma_canonical_unique(t1, t2);
        assert(s1 =~= seq![a] + t1);
        assert(s2 =~= seq![b] + t2);
    }
}

/// Merging two tables gives the same table whichever of them is merged into
/// the other.
pub proof fn lemma_merge_commutes(
    a: Seq<MemoryRange>,
    b: Seq<MemoryRange>,
    ab: Seq<MemoryRange>,
    ba: Seq<MemoryRange>,
)
    requires
        canonical(ab),
        forall|x: int| #[trigger] touches(ab, x) == (touches(a, x) || touches(b, x)),
        canonical(ba),
        forall|x: int| #[trigger] touches(ba, x) == (touches(b, x) || touches(a, x)),
    ensures
        ab == ba,
{
    assert forall|x: int| #[trigger] touches(ab, x) == touches(ba, x) by {
        assert(touches(ab, x) == (touches(a, x) || touches(b, x)));
        assert(touches(ba, x) == (touches(b, x) || touches(a, x)));
    }
    lemma_canonical_unique(ab, ba);
}

} // verus!
