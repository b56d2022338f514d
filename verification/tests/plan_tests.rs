use fasts3::plan::{plan, ByteRange, DEFAULT_CHUNK_SIZE};

#[test]
fn plan_clips_final_range() {
    let r = plan(10, 4);
    assert_eq!(
        r,
        vec![
            ByteRange { start: 0, end: 3 },
            ByteRange { start: 4, end: 7 },
            ByteRange { start: 8, end: 9 },
        ]
    );
}

#[test]
fn plan_of_empty_object_is_empty() {
    assert!(plan(0, 4).is_empty());
    assert!(plan(0, DEFAULT_CHUNK_SIZE).is_empty());
}

#[test]
fn plan_single_exact_chunk() {
    assert_eq!(plan(5, 5), vec![ByteRange { start: 0, end: 4 }]);
}

#[test]
fn plan_chunk_larger_than_object() {
    assert_eq!(plan(3, 100), vec![ByteRange { start: 0, end: 2 }]);
}

#[test]
fn plan_exact_multiple_of_chunk() {
    assert_eq!(
        plan(8, 4),
        vec![ByteRange { start: 0, end: 3 }, ByteRange { start: 4, end: 7 }]
    );
}

#[test]
fn plan_ranges_disjoint_contiguous_and_covering() {
    for total in 0..60usize {
        for chunk in 1..9usize {
            let r = plan(total, chunk);
            if total == 0 {
                assert!(r.is_empty());
                continue;
            }
            assert_eq!(r[0].start, 0);
            assert_eq!(r[r.len() - 1].end, total - 1);
            for w in r.windows(2) {
                // contiguous, hence also pairwise disjoint
                assert_eq!(w[0].end + 1, w[1].start);
            }
            for rg in &r {
                assert!(rg.start <= rg.end && rg.end < total);
                assert!(rg.len() <= chunk);
            }
        }
    }
}
