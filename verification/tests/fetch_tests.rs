use fasts3::errors::StoreError;
use fasts3::fetch::{heads_to_sizes, BatchAssembler, ChunkBuf, ObjectAssembler};
use fasts3::meta::{HeadResult, ObjectMetadata};

fn pattern(n: usize) -> Vec<u8> {
    (0..n).map(|i| ((i * 7 + 3) % 251) as u8).collect()
}

fn meta_of_size(size: usize) -> ObjectMetadata {
    ObjectMetadata::from_head(size, None, None, None, None)
}

/// Fetch one object of known content through the assembler, draining each
/// chunk's range through a `ChunkBuf` in two pieces, in reverse chunk
/// order to show order does not matter.
fn roundtrip(content: &[u8], chunk_size: usize) -> Vec<u8> {
    let mut assembler = ObjectAssembler::new(content.len(), chunk_size);
    for idx in (0..assembler.num_chunks()).rev() {
        let rg = assembler.range_at(idx);
        let slice = &content[rg.start..=rg.end];
        let mut cb = ChunkBuf::new(slice.len());
        let mid = slice.len() / 2;
        cb.push_piece(&slice[..mid]).unwrap();
        cb.push_piece(&slice[mid..]).unwrap();
        let data = cb.finish().unwrap();
        assembler.write_chunk(idx, &data).unwrap();
    }
    assembler.finish().unwrap()
}

#[test]
fn reassembles_known_pattern() {
    let content = pattern(100);
    assert_eq!(roundtrip(&content, 9), content);
}

#[test]
fn reassembly_independent_of_chunk_size() {
    let content = pattern(97);
    for chunk in [1, 3, 7, 50, 96, 97, 1000] {
        assert_eq!(roundtrip(&content, chunk), content);
    }
}

#[test]
fn empty_object_needs_no_range_reads() {
    let assembler = ObjectAssembler::new(0, 8);
    assert_eq!(assembler.num_chunks(), 0);
    assert_eq!(assembler.finish().unwrap(), Vec::<u8>::new());
}

#[test]
fn chunkbuf_early_end_is_short_read() {
    let mut cb = ChunkBuf::new(5);
    cb.push_piece(&[1, 2, 3]).unwrap();
    assert_eq!(cb.finish().unwrap_err(), StoreError::ShortRead);
}

#[test]
fn chunkbuf_refuses_piece_past_promised_length() {
    let mut cb = ChunkBuf::new(3);
    cb.push_piece(&[1, 2]).unwrap();
    assert_eq!(cb.push_piece(&[3, 4]).unwrap_err(), StoreError::StoreUnavailable);
    // the overlong piece is refused whole, not truncated
    assert_eq!(cb.data, vec![1, 2]);
}

#[test]
fn heads_all_found_yields_aligned_sizes() {
    let heads = vec![
        HeadResult::Found(meta_of_size(10)),
        HeadResult::Found(meta_of_size(0)),
        HeadResult::Found(meta_of_size(7)),
    ];
    assert_eq!(heads_to_sizes(&heads).unwrap(), vec![10, 0, 7]);
}

#[test]
fn one_missing_head_fails_whole_batch() {
    let heads = vec![
        HeadResult::Found(meta_of_size(10)),
        HeadResult::Missing,
        HeadResult::Found(meta_of_size(7)),
    ];
    // a single error, before any buffer exists: allocation starts from
    // the sizes, and there are none
    assert_eq!(heads_to_sizes(&heads).unwrap_err(), StoreError::NotFound);
}

#[test]
fn first_failed_head_decides_the_error() {
    let heads = vec![HeadResult::Failed, HeadResult::Missing];
    assert_eq!(heads_to_sizes(&heads).unwrap_err(), StoreError::StoreUnavailable);
}

#[test]
fn failed_chunk_never_exposes_partial_buffer() {
    let content = pattern(10);
    let mut assembler = ObjectAssembler::new(content.len(), 4);
    assert_eq!(assembler.num_chunks(), 3);
    // two chunks land, the middle one never does
    for idx in [0, 2] {
        let rg = assembler.range_at(idx);
        assembler.write_chunk(idx, &content[rg.start..=rg.end].to_vec()).unwrap();
    }
    assert_eq!(assembler.finish().unwrap_err(), StoreError::PartialBatchFailure);
}

#[test]
fn wrong_length_chunk_is_refused() {
    let mut assembler = ObjectAssembler::new(10, 4);
    assert_eq!(
        assembler.write_chunk(0, &vec![1, 2, 3]).unwrap_err(),
        StoreError::StoreUnavailable
    );
}

#[test]
fn duplicate_chunk_is_refused() {
    let mut assembler = ObjectAssembler::new(8, 4);
    assembler.write_chunk(0, &vec![1, 2, 3, 4]).unwrap();
    assert_eq!(
        assembler.write_chunk(0, &vec![1, 2, 3, 4]).unwrap_err(),
        StoreError::StoreUnavailable
    );
}

#[test]
fn batch_releases_all_buffers_together() {
    let a = pattern(10);
    let b = pattern(5);
    let sizes = vec![a.len(), b.len()];
    let mut batch = BatchAssembler::new(&sizes, 4);
    assert_eq!(batch.num_objects(), 2);
    for (obj, content) in [(0usize, &a), (1usize, &b)] {
        for idx in 0..batch.num_chunks_of(obj) {
            let rg = batch.range_of(obj, idx);
            batch.write_chunk(obj, idx, &content[rg.start..=rg.end].to_vec()).unwrap();
        }
    }
    assert_eq!(batch.finish().unwrap(), vec![a, b]);
}

#[test]
fn incomplete_batch_exposes_nothing() {
    let a = pattern(10);
    let sizes = vec![a.len(), 5];
    let mut batch = BatchAssembler::new(&sizes, 4);
    // every chunk of the first object lands, none of the second
    for idx in 0..batch.num_chunks_of(0) {
        let rg = batch.range_of(0, idx);
        batch.write_chunk(0, idx, &a[rg.start..=rg.end].to_vec()).unwrap();
    }
    assert_eq!(batch.finish().unwrap_err(), StoreError::PartialBatchFailure);
}
