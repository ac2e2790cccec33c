use audio_player::decoder::{
    bytes_to_samples, first_audio_stream_index, resample_source_layout, sample_from_le_bytes,
    samples_per_channel, ChunkSource, Decoder,
};

/// Builds a source holding the given chunks.
fn source_of(chunks: &[&[u32]]) -> ChunkSource {
    let mut source = ChunkSource::new();
    for chunk in chunks {
        source.push_chunk(chunk.to_vec());
    }
    source
}

/// Pulls everything a decoder will ever deliver, `step` samples at a time.
fn drain_all(decoder: &mut Decoder, step: usize) -> Vec<u32> {
    let mut all: Vec<u32> = Vec::new();
    loop {
        let mut dst: Vec<u32> = vec![0; step];
        let filled = decoder.pull(&mut dst, step);
        all.extend_from_slice(&dst[..filled]);
        if filled == 0 {
            return all;
        }
    }
}

#[test]
fn pull_exact_when_available() {
    let mut decoder = Decoder::open(source_of(&[&[1, 2, 3], &[4, 5, 6, 7], &[8, 9, 10]]));
    let mut dst: Vec<u32> = vec![0; 4];
    assert_eq!(decoder.pull(&mut dst, 4), 4);
    assert_eq!(dst, vec![1, 2, 3, 4]);
    assert_eq!(decoder.pull(&mut dst, 4), 4);
    assert_eq!(dst, vec![5, 6, 7, 8]);
}

#[test]
fn pull_short_only_at_end_of_stream() {
    let mut decoder = Decoder::open(source_of(&[&[1, 2, 3], &[4, 5]]));
    let mut dst: Vec<u32> = vec![0; 4];
    assert_eq!(decoder.pull(&mut dst, 4), 4);
    assert_eq!(dst, vec![1, 2, 3, 4]);
    // Only one sample remains: the pull comes up short within this call.
    let filled = decoder.pull(&mut dst, 4);
    assert_eq!(filled, 1);
    assert_eq!(dst[0], 5);
    assert!(decoder.is_exhausted());
}

#[test]
fn end_of_stream_is_terminal() {
    let mut decoder = Decoder::open(source_of(&[&[1, 2]]));
    let mut dst: Vec<u32> = vec![0; 8];
    assert_eq!(decoder.pull(&mut dst, 8), 2);
    assert_eq!(decoder.pull(&mut dst, 8), 0);
    // Even if the source were refilled behind its back, a decoder that
    // reported end of stream keeps reporting it.
    assert_eq!(decoder.pull(&mut dst, 8), 0);
    assert_eq!(decoder.pull(&mut dst, 3), 0);
}

#[test]
fn empty_source_reports_end_of_stream_at_once() {
    let mut decoder = Decoder::open(ChunkSource::new());
    let mut dst: Vec<u32> = vec![7; 4];
    assert_eq!(decoder.pull(&mut dst, 4), 0);
    // Nothing was delivered, so nothing in the buffer changed.
    assert_eq!(dst, vec![7, 7, 7, 7]);
}

#[test]
fn zero_request_delivers_nothing_and_keeps_the_stream() {
    let mut decoder = Decoder::open(source_of(&[&[1, 2, 3]]));
    let mut dst: Vec<u32> = vec![0; 4];
    assert_eq!(decoder.pull(&mut dst, 0), 0);
    // A zero-length request is not end of stream: the samples are all still
    // there.
    assert_eq!(decoder.pull(&mut dst, 3), 3);
    assert_eq!(dst[..3], [1, 2, 3]);
}

#[test]
fn surplus_is_buffered_and_drained_in_order() {
    // One chunk far larger than a request: the surplus must come back, in
    // order, before any further chunk.
    let mut decoder = Decoder::open(source_of(&[&[1, 2, 3, 4, 5, 6, 7, 8, 9], &[10, 11]]));
    let mut dst: Vec<u32> = vec![0; 4];
    assert_eq!(decoder.pull(&mut dst, 4), 4);
    assert_eq!(dst, vec![1, 2, 3, 4]);
    assert_eq!(decoder.pull(&mut dst, 4), 4);
    assert_eq!(dst, vec![5, 6, 7, 8]);
    assert_eq!(decoder.pull(&mut dst, 4), 3);
    assert_eq!(dst[..3], [9, 10, 11]);
}

#[test]
fn chunking_never_drops_duplicates_or_reorders() {
    let chunks: &[&[u32]] = &[&[1, 2, 3, 4, 5], &[], &[6], &[7, 8, 9, 10, 11, 12, 13], &[14]];
    let whole = {
        let mut decoder = Decoder::open(source_of(chunks));
        drain_all(&mut decoder, 64)
    };
    assert_eq!(whole, (1..=14).collect::<Vec<u32>>());
    // The same stream pulled in every small step size concatenates to the
    // same sequence.
    for step in 1..8 {
        let mut decoder = Decoder::open(source_of(chunks));
        assert_eq!(drain_all(&mut decoder, step), whole);
    }
}

#[test]
fn pull_leaves_the_buffer_tail_untouched() {
    let mut decoder = Decoder::open(source_of(&[&[1, 2]]));
    let mut dst: Vec<u32> = vec![9; 6];
    assert_eq!(decoder.pull(&mut dst, 4), 2);
    assert_eq!(dst, vec![1, 2, 9, 9, 9, 9]);
}

#[test]
fn sample_word_is_little_endian() {
    assert_eq!(sample_from_le_bytes(0x01, 0x02, 0x03, 0x04), 0x0403_0201);
    assert_eq!(sample_from_le_bytes(0xff, 0x00, 0x00, 0x00), 0x0000_00ff);
    assert_eq!(sample_from_le_bytes(0x00, 0x00, 0x00, 0x80), 0x8000_0000);
}

#[test]
fn byte_buffers_group_into_samples() {
    let bytes: Vec<u8> = vec![1, 0, 0, 0, 2, 0, 0, 0];
    assert_eq!(bytes_to_samples(&bytes), vec![1, 2]);
    // Trailing bytes short of a full sample count for nothing.
    let ragged: Vec<u8> = vec![1, 0, 0, 0, 2, 0, 0, 0, 3];
    assert_eq!(bytes_to_samples(&ragged), vec![1, 2]);
    assert_eq!(bytes_to_samples(&Vec::new()), Vec::<u32>::new());
}

#[test]
fn frame_sample_count_per_channel() {
    // Planar: one channel per line, so only the sample size divides.
    assert_eq!(samples_per_channel(4096, true, 2, 4), 1024);
    // Packed: all channels interleaved in line zero.
    assert_eq!(samples_per_channel(4096, false, 2, 4), 512);
}

#[test]
fn resampler_falls_back_to_the_default_layout() {
    assert_eq!(resample_source_layout(0, 3), 3);
    assert_eq!(resample_source_layout(4, 3), 4);
}

#[test]
fn audio_stream_is_the_first_of_its_type() {
    let types: Vec<i32> = vec![0, 1, 0, 1];
    assert_eq!(first_audio_stream_index(&types, 1), Some(1));
    assert_eq!(first_audio_stream_index(&types, 2), None);
    assert_eq!(first_audio_stream_index(&Vec::new(), 1), None);
}
