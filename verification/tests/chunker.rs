use fxcp_core::chunker::GearChunker;

#[test]
fn test_deterministic_chunking() {
    let data = vec![42u8; 200_000];
    let chunker = GearChunker::default();
    let chunks1 = chunker.chunk_slice(&data);
    let chunks2 = chunker.chunk_slice(&data);

    assert_eq!(chunks1.len(), chunks2.len());
    for (a, b) in chunks1.iter().zip(chunks2.iter()) {
        assert_eq!(a.hash, b.hash);
        assert_eq!(a.data.len(), b.data.len());
    }
}

#[test]
fn test_min_max_boundaries() {
    let chunker = GearChunker::new(1024, 4096, 8192);
    let data = vec![0xABu8; 50_000];
    let chunks = chunker.chunk_slice(&data);

    let total: usize = chunks.iter().map(|c| c.data.len()).sum();
    assert_eq!(total, data.len());

    for (i, chunk) in chunks.iter().enumerate() {
        if i < chunks.len() - 1 {
            assert!(chunk.data.len() >= 1024, "chunk too small: {}", chunk.data.len());
        }
        assert!(chunk.data.len() <= 8192, "chunk too large: {}", chunk.data.len());
    }
}

#[test]
fn test_small_file_single_chunk() {
    let chunker = GearChunker::default();
    let data = vec![0x42u8; 100];
    let chunks = chunker.chunk_slice(&data);
    assert_eq!(chunks.len(), 1);
    assert_eq!(chunks[0].data.len(), 100);
}

#[test]
fn test_empty_input() {
    let chunker = GearChunker::default();
    let chunks = chunker.chunk_slice(&[]);
    assert!(chunks.is_empty());
}

#[test]
fn test_empty_reader() {
    let chunker = GearChunker::default();
    let chunks = chunker.chunk_reader(&vec![]);
    assert!(chunks.is_empty());
}

#[test]
fn test_rolling_hash_stability() {
    let chunker = GearChunker::new(512, 4096, 16384);
    let mut data_a = vec![0u8; 100_000];
    for (i, b) in data_a.iter_mut().enumerate() {
        *b = (i.wrapping_mul(0x9E3779B9) >> 24) as u8;
    }
    let mut data_b = data_a.clone();
    data_b.insert(500, 0xFF);

    let chunks_a = chunker.chunk_slice(&data_a);
    let chunks_b = chunker.chunk_slice(&data_b);

    let hashes_a: std::collections::HashSet<[u8; 32]> = chunks_a.iter().map(|c| c.hash).collect();
    let hashes_b: std::collections::HashSet<[u8; 32]> = chunks_b.iter().map(|c| c.hash).collect();
    let common = hashes_a.intersection(&hashes_b).count();

    let max_chunks = chunks_a.len().max(chunks_b.len());
    assert!(common * 2 >= max_chunks, "too few common chunks: {}/{}", common, max_chunks);
}

#[test]
fn test_chunk_reader_matches_slice() {
    let chunker = GearChunker::default();
    let data = vec![0x55u8; 150_000];
    let from_slice = chunker.chunk_slice(&data);
    let parts: Vec<Vec<u8>> = data.chunks(8192).map(|p| p.to_vec()).collect();
    let from_reader = chunker.chunk_reader(&parts);

    assert_eq!(from_slice.len(), from_reader.len());
    for (a, b) in from_slice.iter().zip(from_reader.iter()) {
        assert_eq!(a.hash, b.hash);
    }
}

#[test]
fn test_blake3_hashes_correct() {
    let chunker = GearChunker::default();
    let data = b"hello world, this is a test of the chunking system";
    let chunks = chunker.chunk_slice(data);
    assert_eq!(chunks.len(), 1);
    assert_eq!(chunks[0].hash, *blake3::hash(data).as_bytes());
}

#[test]
fn chunks_join_to_the_data() {
    let chunker = GearChunker::new(512, 2048, 8192);
    let data: Vec<u8> = (0..60_000u32).map(|i| (i.wrapping_mul(2654435761) >> 13) as u8).collect();
    let joined: Vec<u8> = chunker.chunk_slice(&data).into_iter().flat_map(|c| c.data).collect();
    assert_eq!(joined, data);
    let ends = chunker.find_boundaries(&data);
    assert_eq!(*ends.last().unwrap(), data.len());
    assert!(ends.windows(2).all(|w| w[0] < w[1]));
}
