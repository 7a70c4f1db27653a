use tesla_sei::{extractor_from_reader, for_each_sei_metadata, Error, SeiEvent};

fn mkbox(tag: &[u8; 4], payload: &[u8]) -> Vec<u8> {
    let mut v = Vec::new();
    v.extend_from_slice(&((payload.len() as u32 + 8).to_be_bytes()));
    v.extend_from_slice(tag);
    v.extend_from_slice(payload);
    v
}

fn be32(v: u32) -> [u8; 4] {
    v.to_be_bytes()
}

fn hdlr_payload(handler: &[u8; 4]) -> Vec<u8> {
    let mut p = vec![0u8; 8]; // version/flags + predefined
    p.extend_from_slice(handler);
    p.extend_from_slice(&[0u8; 12]);
    p
}

fn stsd_avc1_payload(nal_len_byte: u8) -> Vec<u8> {
    // avcC payload: configurationVersion, profile, compat, level, then
    // the length-size byte (low 2 bits + 1 gives the prefix width).
    let avcc = mkbox(b"avcC", &[1, 0x64, 0x00, 0x28, nal_len_byte]);
    let mut entry_payload = vec![0u8; 78]; // fixed visual sample entry
    entry_payload.extend_from_slice(&avcc);
    let entry = mkbox(b"avc1", &entry_payload);
    let mut p = vec![0u8; 4]; // version/flags
    p.extend_from_slice(&be32(1)); // entry_count
    p.extend_from_slice(&entry);
    p
}

fn stsz_payload(sizes: &[u32]) -> Vec<u8> {
    let mut p = vec![0u8; 4];
    p.extend_from_slice(&be32(0)); // explicit list
    p.extend_from_slice(&be32(sizes.len() as u32));
    for s in sizes {
        p.extend_from_slice(&be32(*s));
    }
    p
}

fn stco_payload(offsets: &[u32]) -> Vec<u8> {
    let mut p = vec![0u8; 4];
    p.extend_from_slice(&be32(offsets.len() as u32));
    for o in offsets {
        p.extend_from_slice(&be32(*o));
    }
    p
}

fn stsc_payload(runs: &[(u32, u32)]) -> Vec<u8> {
    let mut p = vec![0u8; 4];
    p.extend_from_slice(&be32(runs.len() as u32));
    for (first, spc) in runs {
        p.extend_from_slice(&be32(*first));
        p.extend_from_slice(&be32(*spc));
        p.extend_from_slice(&be32(1));
    }
    p
}

fn video_mp4(sizes: &[u32], offsets: &[u32], runs: &[(u32, u32)], file_len: usize) -> Vec<u8> {
    let mut stbl = Vec::new();
    stbl.extend_from_slice(&mkbox(b"stsd", &stsd_avc1_payload(0xFF)));
    stbl.extend_from_slice(&mkbox(b"stsz", &stsz_payload(sizes)));
    stbl.extend_from_slice(&mkbox(b"stco", &stco_payload(offsets)));
    stbl.extend_from_slice(&mkbox(b"stsc", &stsc_payload(runs)));
    let minf = mkbox(b"minf", &mkbox(b"stbl", &stbl));
    let mut mdia = mkbox(b"hdlr", &hdlr_payload(b"vide"));
    mdia.extend_from_slice(&minf);
    let trak = mkbox(b"trak", &mkbox(b"mdia", &mdia));
    let moov = mkbox(b"moov", &trak);
    let mut file = moov;
    assert!(file.len() <= file_len);
    file.resize(file_len, 0);
    file
}

#[test]
fn offsets_scenario_reconstructs_expected_positions() {
    let data = video_mp4(&[100, 120, 90], &[1000, 5000], &[(1, 2), (2, 1)], 6000);
    let ex = extractor_from_reader(data).unwrap();
    assert_eq!(ex.total_samples(), 3);
}

#[test]
fn seek_to_total_then_next_is_end_of_stream() {
    let data = video_mp4(&[100, 120, 90], &[1000, 5000], &[(1, 2), (2, 1)], 6000);
    let mut ex = extractor_from_reader(data).unwrap();
    ex.seek_sample(3).unwrap();
    // A clean end of stream, not an error.
    assert!(matches!(ex.next_event(), Ok(None)));
}

#[test]
fn seek_past_total_is_out_of_range() {
    let data = video_mp4(&[100, 120, 90], &[1000, 5000], &[(1, 2), (2, 1)], 6000);
    let mut ex = extractor_from_reader(data).unwrap();
    let e = ex.seek_sample(4).unwrap_err();
    assert!(matches!(
        e,
        Error::SampleIndexOutOfRange { sample_index: 4, total_samples: 3 }
    ));
}

#[test]
fn read_at_total_is_out_of_range() {
    let data = video_mp4(&[100, 120, 90], &[1000, 5000], &[(1, 2), (2, 1)], 6000);
    let mut ex = extractor_from_reader(data).unwrap();
    let e = ex.read_sample_events(3).unwrap_err();
    assert!(matches!(
        e,
        Error::SampleIndexOutOfRange { sample_index: 3, total_samples: 3 }
    ));
}

#[test]
fn sample_beyond_data_end_is_io_error() {
    let data = video_mp4(&[100, 120, 90], &[1000, 100_000], &[(1, 2), (2, 1)], 6000);
    let mut ex = extractor_from_reader(data).unwrap();
    let e = ex.read_sample_events(2).unwrap_err();
    assert!(matches!(e, Error::Io { .. }));
}

#[test]
fn empty_samples_end_stream_without_events() {
    // All-zero sample bytes split into no NAL units.
    let data = video_mp4(&[100, 120, 90], &[1000, 5000], &[(1, 2), (2, 1)], 6000);
    let mut ex = extractor_from_reader(data).unwrap();
    assert!(matches!(ex.next_event(), Ok(None)));
}

#[test]
fn no_moov_means_no_tracks() {
    let data = mkbox(b"free", &[0u8; 16]);
    let e = extractor_from_reader(data).unwrap_err();
    assert!(matches!(e, Error::NoTracksFound));
}

#[test]
fn audio_only_track_means_no_tracks() {
    let mut stbl = Vec::new();
    stbl.extend_from_slice(&mkbox(b"stsz", &stsz_payload(&[10])));
    stbl.extend_from_slice(&mkbox(b"stco", &stco_payload(&[100])));
    stbl.extend_from_slice(&mkbox(b"stsc", &stsc_payload(&[(1, 1)])));
    let minf = mkbox(b"minf", &mkbox(b"stbl", &stbl));
    let mut mdia = mkbox(b"hdlr", &hdlr_payload(b"soun"));
    mdia.extend_from_slice(&minf);
    let trak = mkbox(b"trak", &mkbox(b"mdia", &mdia));
    let moov = mkbox(b"moov", &trak);
    let e = extractor_from_reader(moov).unwrap_err();
    assert!(matches!(e, Error::NoTracksFound));
}

#[test]
fn missing_tables_are_named() {
    let stbl = mkbox(b"stsz", &stsz_payload(&[10]));
    let minf = mkbox(b"minf", &mkbox(b"stbl", &stbl));
    let mut mdia = mkbox(b"hdlr", &hdlr_payload(b"vide"));
    mdia.extend_from_slice(&minf);
    let trak = mkbox(b"trak", &mkbox(b"mdia", &mdia));
    let moov = mkbox(b"moov", &trak);
    let e = extractor_from_reader(moov).unwrap_err();
    match e {
        Error::Mp4MissingSampleTables { missing } => {
            assert_eq!(missing, "stco/co64, stsc");
        }
        other => panic!("unexpected error: {:?}", other),
    }
}

#[test]
fn largesize_box_smaller_than_header_is_malformed() {
    let mut data = Vec::new();
    data.extend_from_slice(&be32(1)); // size 1: extended size follows
    data.extend_from_slice(b"moov");
    data.extend_from_slice(&8u64.to_be_bytes()); // largesize < 16-byte header
    data.extend_from_slice(&[0u8; 16]);
    let e = extractor_from_reader(data).unwrap_err();
    assert!(matches!(e, Error::Mp4InvalidBox { offset: 0, .. }));
}

#[test]
fn sei_event_scenario_one_avc_sample() {
    // One video track, one sample holding a single SEI NAL (type 6)
    // with payload type 5: a 16-byte marker followed by an encoded
    // record with version 1 and frame sequence number 42.
    let mut record_payload = vec![0xAAu8; 16];
    record_payload.extend_from_slice(&[0x08, 0x01, 0x18, 0x2A]);
    let mut sei_body = vec![0x05u8, record_payload.len() as u8];
    sei_body.extend_from_slice(&record_payload);
    let mut nal = vec![0x06u8]; // NAL header: type 6 (SEI)
    nal.extend_from_slice(&sei_body);
    let mut sample = (nal.len() as u32).to_be_bytes().to_vec();
    sample.extend_from_slice(&nal);

    let sample_off = 2048usize;
    let mut data = video_mp4(
        &[sample.len() as u32],
        &[sample_off as u32],
        &[(1, 1)],
        sample_off + sample.len(),
    );
    data[sample_off..sample_off + sample.len()].copy_from_slice(&sample);

    let mut ex = extractor_from_reader(data).unwrap();
    assert_eq!(ex.total_samples(), 1);
    let ev = ex.next_event().unwrap().unwrap();
    assert_eq!(ev.sample_index, 0);
    assert_eq!(ev.file_offset, sample_off as u64);
    assert_eq!(ev.metadata.version, 1);
    assert_eq!(ev.metadata.frame_seq_no, 42);
    // Exactly one event.
    assert!(matches!(ex.next_event(), Ok(None)));
}

#[test]
fn read_sample_events_does_not_move_cursor() {
    let mut record_payload = vec![0xAAu8; 16];
    record_payload.extend_from_slice(&[0x08, 0x05, 0x18, 0x09]);
    let mut sei_body = vec![0x05u8, record_payload.len() as u8];
    sei_body.extend_from_slice(&record_payload);
    let mut nal = vec![0x06u8];
    nal.extend_from_slice(&sei_body);
    let mut sample = (nal.len() as u32).to_be_bytes().to_vec();
    sample.extend_from_slice(&nal);

    let sample_off = 2048usize;
    let mut data = video_mp4(
        &[sample.len() as u32],
        &[sample_off as u32],
        &[(1, 1)],
        sample_off + sample.len(),
    );
    data[sample_off..sample_off + sample.len()].copy_from_slice(&sample);

    let mut ex = extractor_from_reader(data).unwrap();
    let evs = ex.read_sample_events(0).unwrap();
    assert_eq!(evs.len(), 1);
    assert_eq!(evs[0].metadata.version, 5);
    assert_eq!(evs[0].metadata.frame_seq_no, 9);
    // Sequential reading still starts from sample 0.
    let ev = ex.next_event().unwrap().unwrap();
    assert_eq!(ev.sample_index, 0);
    assert_eq!(ev.metadata.version, 5);
}

#[test]
fn preview_track_loses_to_larger_track() {
    // Two video tracks; the one with more samples is selected.
    let small_sizes = [10u32];
    let big_sizes = [10u32, 10, 10];
    let mk_trak = |sizes: &[u32], offs: &[u32]| {
        let mut stbl = Vec::new();
        stbl.extend_from_slice(&mkbox(b"stsd", &stsd_avc1_payload(0xFF)));
        stbl.extend_from_slice(&mkbox(b"stsz", &stsz_payload(sizes)));
        stbl.extend_from_slice(&mkbox(b"stco", &stco_payload(offs)));
        stbl.extend_from_slice(&mkbox(b"stsc", &stsc_payload(&[(1, sizes.len() as u32)])));
        let minf = mkbox(b"minf", &mkbox(b"stbl", &stbl));
        let mut mdia = mkbox(b"hdlr", &hdlr_payload(b"vide"));
        mdia.extend_from_slice(&minf);
        mkbox(b"trak", &mkbox(b"mdia", &mdia))
    };
    let mut moov_payload = mk_trak(&small_sizes, &[1000]);
    moov_payload.extend_from_slice(&mk_trak(&big_sizes, &[1500]));
    let moov = mkbox(b"moov", &moov_payload);
    let mut data = moov;
    data.resize(4096, 0);
    let ex = extractor_from_reader(data).unwrap();
    assert_eq!(ex.total_samples(), 3);
}

#[test]
fn for_each_visits_every_event() {
    let data = video_mp4(&[100, 120, 90], &[1000, 5000], &[(1, 2), (2, 1)], 6000);
    // All-zero samples decode to nothing; the driver ends cleanly.
    let cb = |_ev: SeiEvent| -> Result<(), Error> { Ok(()) };
    assert!(for_each_sei_metadata(data, cb).is_ok());
}

#[test]
fn for_each_propagates_callback_error() {
    let mut record_payload = vec![0xAAu8; 16];
    record_payload.extend_from_slice(&[0x08, 0x01, 0x18, 0x2A]);
    let mut sei_body = vec![0x05u8, record_payload.len() as u8];
    sei_body.extend_from_slice(&record_payload);
    let mut nal = vec![0x06u8];
    nal.extend_from_slice(&sei_body);
    let mut sample = (nal.len() as u32).to_be_bytes().to_vec();
    sample.extend_from_slice(&nal);

    let sample_off = 2048usize;
    let mut data = video_mp4(
        &[sample.len() as u32],
        &[sample_off as u32],
        &[(1, 1)],
        sample_off + sample.len(),
    );
    data[sample_off..sample_off + sample.len()].copy_from_slice(&sample);

    let cb = |ev: SeiEvent| -> Result<(), Error> {
        assert_eq!(ev.metadata.version, 1);
        Err(Error::NoTracksFound)
    };
    let e = for_each_sei_metadata(data, cb).unwrap_err();
    assert!(matches!(e, Error::NoTracksFound));
}

#[test]
fn hevc_prefix_sei_is_decoded() {
    // An HEVC track: hvcC with length-size byte at payload offset 21;
    // NAL type 39 (prefix SEI) sits in bits 1..6 of the first header
    // byte, and the header is two bytes.
    let mut hvcc_payload = vec![0u8; 21];
    hvcc_payload.push(0xFF); // low 2 bits: 4-byte NAL length prefixes
    let hvcc = {
        let mut v = Vec::new();
        v.extend_from_slice(&((hvcc_payload.len() as u32 + 8).to_be_bytes()));
        v.extend_from_slice(b"hvcC");
        v.extend_from_slice(&hvcc_payload);
        v
    };
    let mut entry_payload = vec![0u8; 78];
    entry_payload.extend_from_slice(&hvcc);
    let entry = {
        let mut v = Vec::new();
        v.extend_from_slice(&((entry_payload.len() as u32 + 8).to_be_bytes()));
        v.extend_from_slice(b"hvc1");
        v.extend_from_slice(&entry_payload);
        v
    };
    let mut stsd_payload = vec![0u8; 4];
    stsd_payload.extend_from_slice(&1u32.to_be_bytes());
    stsd_payload.extend_from_slice(&entry);

    let mut record_payload = vec![0xAAu8; 16];
    record_payload.extend_from_slice(&[0x08, 0x03, 0x18, 0x08]);
    let mut sei_body = vec![0x05u8, record_payload.len() as u8];
    sei_body.extend_from_slice(&record_payload);
    let mut nal = vec![39u8 << 1, 0x01]; // two-byte HEVC NAL header
    nal.extend_from_slice(&sei_body);
    let mut sample = (nal.len() as u32).to_be_bytes().to_vec();
    sample.extend_from_slice(&nal);

    let sample_off = 2048usize;
    let mut stbl = Vec::new();
    stbl.extend_from_slice(&mkbox(b"stsd", &stsd_payload));
    stbl.extend_from_slice(&mkbox(b"stsz", &stsz_payload(&[sample.len() as u32])));
    stbl.extend_from_slice(&mkbox(b"stco", &stco_payload(&[sample_off as u32])));
    stbl.extend_from_slice(&mkbox(b"stsc", &stsc_payload(&[(1, 1)])));
    let minf = mkbox(b"minf", &mkbox(b"stbl", &stbl));
    let mut mdia = mkbox(b"hdlr", &hdlr_payload(b"vide"));
    mdia.extend_from_slice(&minf);
    let trak = mkbox(b"trak", &mkbox(b"mdia", &mdia));
    let moov = mkbox(b"moov", &trak);
    let mut data = moov;
    data.resize(sample_off + sample.len(), 0);
    data[sample_off..sample_off + sample.len()].copy_from_slice(&sample);

    let mut ex = extractor_from_reader(data).unwrap();
    let ev = ex.next_event().unwrap().unwrap();
    assert_eq!(ev.metadata.version, 3);
    assert_eq!(ev.metadata.frame_seq_no, 8);
}

#[test]
fn malformed_box_reports_context_and_offset() {
    let mut data = Vec::new();
    data.extend_from_slice(&be32(1)); // size 1: extended size follows
    data.extend_from_slice(b"moov");
    data.extend_from_slice(&8u64.to_be_bytes());
    data.extend_from_slice(&[0u8; 16]);
    match extractor_from_reader(data).unwrap_err() {
        Error::Mp4InvalidBox { context, box_type, offset, .. } => {
            assert_eq!(context, "top");
            assert_eq!(box_type, u32::from_be_bytes(*b"moov"));
            assert_eq!(offset, 0);
        }
        other => panic!("unexpected error: {:?}", other),
    }
}
