//! Scalar inputs expanded into chunk lists.

use buf_list::inputs::{nested_usize_to_u8, seed_to_chunks, usize_to_u8};

/// The expansion written out directly, step by step.
fn expected_chunks(seed: u64) -> Vec<Vec<u8>> {
    let n = ((seed >> 60) as usize) % 5 + 1;
    let mut out = Vec::new();
    let mut s = seed;
    for _ in 0..n {
        s = s.wrapping_mul(6364136223846793005).wrapping_add(1442695040888963407);
        let clen = ((s >> 58) as usize) % 8 + 1;
        let mut chunk = Vec::new();
        for _ in 0..clen {
            s = s.wrapping_mul(2862933555777941757).wrapping_add(3037000493);
            chunk.push((s >> 33) as u8);
        }
        out.push(chunk);
    }
    out
}

#[test]
fn seed_to_chunks_shapes() {
    for seed in [0u64, 1, 42, u64::MAX, 0xF000_0000_0000_0000, 0x4000_0000_0000_0000] {
        let chunks = seed_to_chunks(seed);
        assert_eq!(chunks.len() as u64, (seed >> 60) % 5 + 1);
        for c in &chunks {
            assert!(!c.is_empty() && c.len() <= 8);
        }
        assert_eq!(chunks, expected_chunks(seed));
    }
}

#[test]
fn seed_zero_gives_one_chunk() {
    // (0 >> 60) % 5 + 1 == 1; the first step of the outer generator from 0
    // is its increment, whose top six bits give the chunk's length.
    let chunks = seed_to_chunks(0);
    assert_eq!(chunks.len(), 1);
    assert_eq!(chunks[0].len() as u64, (1442695040888963407u64 >> 58) % 8 + 1);
}

#[test]
fn usize_to_u8_values() {
    assert_eq!(usize_to_u8(0), 0);
    assert_eq!(usize_to_u8(1), 158);
    assert_eq!(usize_to_u8(2), 60);
    assert_eq!(usize_to_u8(13), 8);
    assert_eq!(usize_to_u8(255), 153);
}

#[test]
fn nested_usize_to_u8_maps_every_element() {
    let out = nested_usize_to_u8(vec![vec![0, 1], vec![], vec![2, 13, 255]]);
    assert_eq!(out, vec![vec![0u8, 158], vec![], vec![60u8, 8, 153]]);
}
