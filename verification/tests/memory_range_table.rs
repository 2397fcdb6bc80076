use migration_profile::memory_range_table::{MemoryRange, MemoryRangeTable};

fn table(ranges: &[(u64, u64)]) -> MemoryRangeTable {
    let mut t = MemoryRangeTable::default();
    for &(gpa, length) in ranges {
        t.push(MemoryRange { gpa, length });
    }
    t
}

fn ranges(t: &MemoryRangeTable) -> Vec<(u64, u64)> {
    t.regions().iter().map(|r| (r.gpa, r.length)).collect()
}

fn assert_canonical(t: &MemoryRangeTable) {
    for w in t.regions().windows(2) {
        let a = &w[0];
        let b = &w[1];
        let a_end = a.gpa + a.length;

        assert!(a.length > 0);
        assert!(
            a_end < b.gpa,
            "Ranges overlap or touch (and should have been merged)"
        );
    }
}

fn chunks_of(table: MemoryRangeTable, chunk_size: u64) -> Vec<Vec<MemoryRange>> {
    table
        .partition(chunk_size)
        .into_iter()
        .map(|t| t.regions().to_vec())
        .collect()
}

#[test]
fn test_memory_range_table_from_dirty_ranges_iter() {
    let input = [0b1111_1110_1110, 0b1_0000];

    let start_gpa = 0x1000;
    let page_size = 0x1000;

    let range = MemoryRangeTable::from_dirty_bitmap(&input, start_gpa, page_size);
    assert_eq!(
        range.regions(),
        &[
            MemoryRange {
                gpa: start_gpa + page_size,
                length: page_size * 3,
            },
            MemoryRange {
                gpa: start_gpa + 5 * page_size,
                length: page_size * 7,
            },
            MemoryRange {
                gpa: start_gpa + (64 + 4) * page_size,
                length: page_size,
            }
        ]
    );
}

#[test]
fn test_memory_range_table_partition() {
    let input = [0b11_0011_0011_0011];

    let start_gpa = 0x1000;
    let page_size = 0x1000;

    let table = MemoryRangeTable::from_dirty_bitmap(&input, start_gpa, page_size);
    let expected_regions = [
        MemoryRange {
            gpa: start_gpa,
            length: page_size * 2,
        },
        MemoryRange {
            gpa: start_gpa + 4 * page_size,
            length: page_size * 2,
        },
        MemoryRange {
            gpa: start_gpa + 8 * page_size,
            length: page_size * 2,
        },
        MemoryRange {
            gpa: start_gpa + 12 * page_size,
            length: page_size * 2,
        },
    ];
    assert_eq!(table.regions(), &expected_regions);

    {
        let chunks = chunks_of(table.clone(), page_size * 2);

        // The ranges come in reverse order; reversed here for readability.
        let chunks = chunks
            .into_iter()
            .map(|vec| vec.into_iter().rev().collect::<Vec<_>>())
            .rev()
            .collect::<Vec<_>>();

        assert_eq!(
            chunks,
            &[
                [expected_regions[0]].to_vec(),
                [expected_regions[1]].to_vec(),
                [expected_regions[2]].to_vec(),
                [expected_regions[3]].to_vec(),
            ]
        );
    }

    {
        let chunks = chunks_of(table.clone(), page_size * 5);

        let chunks = chunks
            .into_iter()
            .map(|vec| vec.into_iter().rev().collect::<Vec<_>>())
            .rev()
            .collect::<Vec<_>>();

        assert_eq!(
            chunks,
            &[
                vec![
                    MemoryRange {
                        gpa: start_gpa,
                        length: 2 * page_size
                    },
                    MemoryRange {
                        gpa: start_gpa + 4 * page_size,
                        length: page_size
                    }
                ],
                vec![
                    MemoryRange {
                        gpa: start_gpa + 5 * page_size,
                        length: page_size
                    },
                    MemoryRange {
                        gpa: start_gpa + 8 * page_size,
                        length: 2 * page_size
                    },
                    MemoryRange {
                        gpa: start_gpa + 12 * page_size,
                        length: 2 * page_size
                    }
                ]
            ]
        );
    }
}

#[test]
fn test_memory_range_table_partition_uneven_split() {
    let input = [0b111];
    let start_gpa = 0x1000;
    let page_size = 0x1000;

    let table = MemoryRangeTable::from_dirty_bitmap(&input, start_gpa, page_size);

    let chunks = chunks_of(table, page_size * 2);

    let chunks = chunks.into_iter().rev().collect::<Vec<_>>();

    assert_eq!(
        chunks,
        &[
            vec![MemoryRange {
                gpa: start_gpa,
                length: page_size,
            }],
            vec![MemoryRange {
                gpa: start_gpa + page_size,
                length: page_size * 2,
            }],
        ]
    );
}

#[test]
fn merge_disjoint() {
    let mut a = table(&[(0, 10)]);
    let b = table(&[(20, 5)]);

    a.merge_in_place(b);

    assert_eq!(ranges(&a), vec![(0, 10), (20, 5)]);
    assert_canonical(&a);
}

#[test]
fn merge_overlap() {
    let mut a = table(&[(0, 10)]);
    let b = table(&[(5, 10)]);

    a.merge_in_place(b);

    assert_eq!(ranges(&a), vec![(0, 15)]);
    assert_canonical(&a);
}

#[test]
fn merge_adjacent() {
    let mut a = table(&[(0, 10)]);
    let b = table(&[(10, 5)]);

    a.merge_in_place(b);

    assert_eq!(ranges(&a), vec![(0, 15)]);
    assert_canonical(&a);
}

#[test]
fn merge_contained() {
    let mut a = table(&[(0, 20)]);
    let b = table(&[(5, 5)]);

    a.merge_in_place(b);

    assert_eq!(ranges(&a), vec![(0, 20)]);
    assert_canonical(&a);
}

#[test]
fn merge_chain_across_tables() {
    let mut a = table(&[(0, 5), (20, 5)]);
    let b = table(&[(5, 15)]);

    a.merge_in_place(b);

    assert_eq!(ranges(&a), vec![(0, 25)]);
    assert_canonical(&a);
}

#[test]
fn merge_self_empty() {
    let mut a = table(&[]);
    let b = table(&[(10, 5)]);

    a.merge_in_place(b);

    assert_eq!(ranges(&a), vec![(10, 5)]);
    assert_canonical(&a);
}

#[test]
fn merge_other_empty() {
    let mut a = table(&[(10, 5)]);
    let b = table(&[]);

    a.merge_in_place(b);

    assert_eq!(ranges(&a), vec![(10, 5)]);
    assert_canonical(&a);
}

#[test]
fn merge_duplicates() {
    let mut a = table(&[(2, 1), (3, 2), (10, 5)]);
    let b = table(&[(2, 1), (10, 5), (20, 9)]);

    a.merge_in_place(b);

    assert_eq!(ranges(&a), vec![(2, 3), (10, 5), (20, 9)]);
    assert_canonical(&a);
}

#[test]
fn merge_is_symmetric_on_example() {
    let mut a = table(&[(0, 5), (20, 5), (40, 1)]);
    let b = table(&[(3, 4), (25, 10)]);
    let mut b2 = table(&[(3, 4), (25, 10)]);
    let a2 = table(&[(0, 5), (20, 5), (40, 1)]);

    a.merge_in_place(b);
    b2.merge_in_place(a2);

    assert_eq!(ranges(&a), vec![(0, 7), (20, 15), (40, 1)]);
    assert_eq!(ranges(&a), ranges(&b2));
}

#[test]
fn merge_keeps_zero_length_range_separate() {
    let mut a = table(&[(0, 0)]);
    let b = table(&[(5, 0)]);

    a.merge_in_place(b);

    assert_eq!(ranges(&a), vec![(0, 0), (5, 0)]);
}

#[test]
fn from_dirty_bitmap_empty_and_full() {
    let empty = MemoryRangeTable::from_dirty_bitmap(&[], 0, 0);
    assert!(empty.is_empty());

    let none_dirty = MemoryRangeTable::from_dirty_bitmap(&[0, 0], 0x1000, 0x1000);
    assert!(none_dirty.is_empty());

    let full = MemoryRangeTable::from_dirty_bitmap(&[u64::MAX, u64::MAX], 0, 0x1000);
    assert_eq!(ranges(&full), vec![(0, 128 * 0x1000)]);
}

#[test]
fn from_dirty_bitmap_run_across_words() {
    let input = [1u64 << 63, 0b1];
    let t = MemoryRangeTable::from_dirty_bitmap(&input, 0, 1);
    assert_eq!(ranges(&t), vec![(63, 2)]);
}

#[test]
fn partition_sizes_and_conservation() {
    let t = table(&[(0, 7), (100, 3), (200, 11)]);
    let total = t.effective_size();
    let chunks = t.partition(4);
    let sizes: Vec<u64> = chunks
        .iter()
        .map(|c| c.regions().iter().map(|r| r.length).sum())
        .collect();
    assert_eq!(sizes.iter().sum::<u64>(), total);
    for s in &sizes[..sizes.len() - 1] {
        assert_eq!(*s, 4);
    }
    assert!(*sizes.last().unwrap() <= 4);
}

#[test]
fn partition_with_zero_chunk_size_yields_nothing() {
    let t = table(&[(0, 7)]);
    assert!(t.partition(0).is_empty());
}

#[test]
fn table_bytes_roundtrip_and_length() {
    let t = table(&[(0x1122_3344_5566_7788, 0x10), (0x2000, 0x3000)]);
    let mut bytes = Vec::new();
    t.write_to(&mut bytes);
    assert_eq!(bytes.len() as u64, t.length());
    assert_eq!(&bytes[0..8], &0x1122_3344_5566_7788u64.to_le_bytes());
    assert_eq!(&bytes[8..16], &0x10u64.to_le_bytes());
    let back = MemoryRangeTable::read_from(&bytes);
    assert_eq!(ranges(&back), ranges(&t));
}

#[test]
fn extend_and_new_from_tables() {
    let mut a = table(&[(0, 1)]);
    a.extend(table(&[(5, 2), (9, 3)]));
    assert_eq!(ranges(&a), vec![(0, 1), (5, 2), (9, 3)]);

    let all = MemoryRangeTable::new_from_tables(vec![table(&[(1, 1)]), table(&[]), table(&[(2, 2), (3, 3)])]);
    assert_eq!(ranges(&all), vec![(1, 1), (2, 2), (3, 3)]);
    assert_eq!(all.effective_size(), 6);
    assert_eq!(all.ranges(), all.regions());
}

#[test]
fn merge_into_empty_collapses_other() {
    let mut a = table(&[]);
    let b = table(&[(0, 10), (5, 10)]);

    a.merge_in_place(b);

    assert_eq!(ranges(&a), vec![(0, 15)]);
    assert_canonical(&a);
}

#[test]
fn merge_empty_into_overlapping_collapses() {
    let mut a = table(&[(0, 10), (10, 5), (20, 1)]);
    let b = table(&[]);

    a.merge_in_place(b);

    assert_eq!(ranges(&a), vec![(0, 15), (20, 1)]);
    assert_canonical(&a);
}

#[test]
fn merge_unsorted_tables() {
    let mut a = table(&[(30, 5), (0, 4)]);
    let b = table(&[(20, 10), (4, 2)]);

    a.merge_in_place(b);

    assert_eq!(ranges(&a), vec![(0, 6), (20, 15)]);
    assert_canonical(&a);
}

#[test]
fn partition_range_ending_at_address_space_end() {
    let t = table(&[(u64::MAX - 9, 10)]);
    let chunks = t.partition(4);
    let got: Vec<Vec<(u64, u64)>> = chunks.iter().map(ranges).collect();
    assert_eq!(
        got,
        vec![
            vec![(u64::MAX - 3, 4)],
            vec![(u64::MAX - 7, 4)],
            vec![(u64::MAX - 9, 2)],
        ]
    );
}

#[test]
fn partition_count_and_addresses() {
    let t = table(&[(0, 10), (20, 5)]);
    let chunks = t.partition(4);
    // 15 bytes in chunks of 4: ceil(15 / 4) chunks.
    assert_eq!(chunks.len(), 4);
    let mut addresses: Vec<u64> = chunks
        .iter()
        .flat_map(|c| c.regions().iter().flat_map(|r| r.gpa..r.gpa + r.length).collect::<Vec<u64>>())
        .collect();
    addresses.sort_unstable();
    let expected: Vec<u64> = (0..10).chain(20..25).collect();
    assert_eq!(addresses, expected);
}
