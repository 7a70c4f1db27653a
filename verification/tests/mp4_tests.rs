use tesla_sei::mp4::{
    build_sample_offsets, parse_stsz, safe_box_end, BoxHeader, CodecConfig, StscEntry,
    TrackSampleTables,
};
use tesla_sei::Error;

fn track(
    sizes: Vec<u32>,
    offsets: Vec<u64>,
    runs: Vec<(u32, u32)>,
) -> TrackSampleTables {
    TrackSampleTables {
        sample_sizes: sizes,
        chunk_offsets: offsets,
        stsc: runs
            .into_iter()
            .map(|(first_chunk, samples_per_chunk)| StscEntry {
                first_chunk,
                samples_per_chunk,
                sample_description_index: 1,
            })
            .collect(),
        codec: CodecConfig::Avc { nal_len_size: 4 },
    }
}

#[test]
fn offsets_for_two_chunks_and_three_samples() {
    // chunk 1 holds 2 samples, chunk 2 holds 1; sizes 100, 120, 90.
    let t = track(vec![100, 120, 90], vec![1000, 5000], vec![(1, 2), (2, 1)]);
    let offs = build_sample_offsets(&t).unwrap();
    assert_eq!(offs, vec![1000, 1100, 5000]);
}

#[test]
fn offsets_count_equals_sample_count() {
    let t = track(
        vec![10, 20, 30, 40, 50],
        vec![100, 300],
        vec![(1, 3), (2, 2)],
    );
    let offs = build_sample_offsets(&t).unwrap();
    assert_eq!(offs.len(), t.sample_sizes.len());
    assert_eq!(offs, vec![100, 110, 130, 300, 340]);
}

#[test]
fn offsets_fill_zero_count_chunks_from_previous_run() {
    // The run table names only chunk 1; chunk 2 inherits its count.
    let t = track(vec![10, 10, 10, 10], vec![100, 200], vec![(1, 2)]);
    let offs = build_sample_offsets(&t).unwrap();
    assert_eq!(offs, vec![100, 110, 200, 210]);
}

#[test]
fn offsets_mismatch_is_inconsistent_tables() {
    // Two chunks of one sample each, but three declared sizes.
    let t = track(vec![10, 20, 30], vec![100, 200], vec![(1, 1)]);
    let e = build_sample_offsets(&t).unwrap_err();
    assert!(matches!(
        e,
        Error::Mp4InconsistentSampleTables { sample_sizes: 3, sample_offsets: 2, chunk_offsets: 2 }
    ));
}

#[test]
fn fixed_size_stsz_fast_path_is_constant_sequence() {
    // version/flags, sample_size = 50, sample_count = 4: no per-sample
    // entries follow.
    let payload = [
        0u8, 0, 0, 0, // version/flags
        0, 0, 0, 50, // sample_size
        0, 0, 0, 4, // sample_count
    ];
    let sizes = parse_stsz(&payload, 0).unwrap();
    assert_eq!(sizes, vec![50, 50, 50, 50]);
}

#[test]
fn explicit_stsz_entries_are_read() {
    let payload = [
        0u8, 0, 0, 0, // version/flags
        0, 0, 0, 0, // sample_size = 0: explicit list
        0, 0, 0, 2, // sample_count
        0, 0, 0, 7, // size[0]
        0, 0, 1, 0, // size[1]
    ];
    let sizes = parse_stsz(&payload, 0).unwrap();
    assert_eq!(sizes, vec![7, 256]);
}

#[test]
fn truncated_stsz_is_io_error() {
    let payload = [0u8, 0, 0, 0, 0, 0, 0, 0, 0, 0, 0, 9];
    let e = parse_stsz(&payload, 0).unwrap_err();
    assert!(matches!(e, Error::Io { .. }));
}

#[test]
fn box_end_not_advancing_is_malformed() {
    // A largesize-style header whose end, after clamping, does not
    // advance past its own start.
    let hdr = BoxHeader { typ: 0x6D6F6F76, size: 20, header_len: 16 };
    let e = safe_box_end("top", 100, &hdr, 50).unwrap_err();
    assert!(matches!(
        e,
        Error::Mp4InvalidBox { box_type: 0x6D6F6F76, offset: 100, .. }
    ));
}

#[test]
fn box_size_smaller_than_header_is_malformed() {
    let hdr = BoxHeader { typ: 0x7472616B, size: 8, header_len: 16 };
    let e = safe_box_end("trak", 0, &hdr, 1000).unwrap_err();
    assert!(matches!(e, Error::Mp4InvalidBox { box_type: 0x7472616B, offset: 0, .. }));
}

#[test]
fn box_size_zero_extends_to_limit() {
    let hdr = BoxHeader { typ: 0x6D6F6F76, size: 0, header_len: 8 };
    assert_eq!(safe_box_end("top", 10, &hdr, 500).unwrap(), 500);
}

#[test]
fn overlong_box_is_clamped_to_limit() {
    let hdr = BoxHeader { typ: 0x6D6F6F76, size: 100000, header_len: 8 };
    assert_eq!(safe_box_end("top", 10, &hdr, 500).unwrap(), 500);
}
