use pocketcam::mp4::{avcc_box, ftyp, moov_box, Chunk, Desc, MuxError, Sample, TIMESCALE};
use pocketcam::record::{
    annexb_to_avcc, local_stamp, nals, new_path, orient_swap, preamble, recording_name,
    sample_dur, sps_pps, FileStep, Msg, Mux, Push, RecordError, Recorder, Writer, DATA_AT,
    DEFAULT_DUR, MAX_DUR, MIN_DUR,
};

const MS: u64 = 1_000_000;

/// Parameter sets for 1920×1080, 1080×1920 and 1280×720.
const WIDE: [u8; 10] = [0x67, 0x42, 0x00, 0x28, 0xda, 0x01, 0xe0, 0x08, 0x9f, 0x95];
const TALL: [u8; 10] = [0x67, 0x42, 0x00, 0x28, 0xda, 0x01, 0x10, 0x0f, 0x1e, 0x5d];
const HD: [u8; 9] = [0x67, 0x42, 0x00, 0x28, 0xda, 0x01, 0x40, 0x16, 0xe4];
const PPS: [u8; 3] = [0x68, 0xce, 0x3c];

fn unit(parts: &[&[u8]]) -> Vec<u8> {
    let mut v = Vec::new();
    for p in parts {
        v.extend_from_slice(&[0, 0, 0, 1]);
        v.extend_from_slice(p);
    }
    v
}

fn keyframe(sps: &[u8], fill: u8) -> Vec<u8> {
    unit(&[sps, &PPS, &[0x65, fill, fill, 0x80]])
}

fn p_frame(fill: u8) -> Vec<u8> {
    unit(&[&[0x41, fill, 0x80]])
}

fn be32(b: &[u8], at: usize) -> u32 {
    u32::from_be_bytes(b[at..at + 4].try_into().unwrap())
}

#[test]
fn splits_annex_b() {
    let mut buf = vec![0, 0, 0, 1, 0x67, 1, 2];
    buf.extend_from_slice(&[0, 0, 0, 1, 0x68, 3]);
    buf.extend_from_slice(&[0, 0, 0, 1, 0x65, 9, 9, 9]);
    let n = nals(&buf);
    assert_eq!(n.len(), 3);
    assert_eq!(n[0], &[0x67, 1, 2]);
    assert_eq!(n[2], &[0x65, 9, 9, 9]);
    let avcc = annexb_to_avcc(&buf);
    assert_eq!(&avcc[..4], &4u32.to_be_bytes());
    assert_eq!(&avcc[4..], &[0x65, 9, 9, 9]);
}

#[test]
fn sample_dur_clamps_rtp_like_jumps() {
    let a = 5_000 * MS;
    let b = a + 33 * MS;
    let d = sample_dur(Some(a), b, DEFAULT_DUR);
    assert!((2800..=3200).contains(&d), "33ms → {d}");
    let c = a + 370 * MS;
    let stretched = sample_dur(Some(a), c, DEFAULT_DUR);
    assert_eq!(stretched, MAX_DUR);
    assert_eq!(sample_dur(None, a, DEFAULT_DUR), DEFAULT_DUR);
}

#[test]
fn orient_swap_is_wh_flip_only() {
    assert!(orient_swap(1920, 1080, 1080, 1920));
    assert!(orient_swap(1080, 1920, 1920, 1080));
    assert!(!orient_swap(1920, 1080, 1920, 1080));
    assert!(!orient_swap(1920, 1080, 1280, 720));
    assert!(!orient_swap(1080, 1080, 1080, 1080));
}

#[test]
fn durations_stay_within_their_range() {
    assert_eq!(sample_dur(Some(0), 33_333_333, DEFAULT_DUR), 2999);
    assert!(sample_dur(Some(0), 1, DEFAULT_DUR) >= MIN_DUR);
    assert!(sample_dur(Some(0), 60_000 * MS, DEFAULT_DUR) <= MAX_DUR);
}

#[test]
fn parameter_sets_are_found() {
    let au = keyframe(&WIDE, 1);
    let (s, p) = sps_pps(&au).unwrap();
    assert_eq!(s, WIDE.to_vec());
    assert_eq!(p, PPS.to_vec());
    assert!(sps_pps(&p_frame(1)).is_none());
    let b = avcc_box(&WIDE, &PPS).unwrap();
    assert_eq!(be32(&b, 0) as usize, b.len());
    assert_eq!(&b[4..8], b"avcC");
    assert_eq!(b[8], 1);
    assert_eq!(&b[9..12], &WIDE[1..4]);
    assert!(matches!(avcc_box(&[0x67, 1], &PPS), Err(MuxError::BadParams)));
}

#[test]
fn a_file_begins_with_its_type_and_an_open_box() {
    let p = preamble();
    assert_eq!(p.len() as u64, DATA_AT);
    assert_eq!(&p[4..8], b"ftyp");
    assert_eq!(be32(&p, 0), 32);
    assert_eq!(&p[..32], &ftyp()[..]);
    assert_eq!(&p[36..40], b"mdat");
}

#[test]
fn nothing_is_written_before_a_keyframe() {
    let mut w = Writer::new();
    let (steps, e) = w.ingest_au(&p_frame(1), 0);
    assert!(steps.is_empty() && e.is_none());
    let (steps, e) = w.ingest_au(&keyframe(&WIDE, 2), 33 * MS);
    assert!(e.is_none());
    assert_eq!(steps.len(), 2);
    assert!(matches!(steps[0], FileStep::Create));
    match &steps[1] {
        FileStep::Append(b) => assert_eq!(b, &vec![0, 0, 0, 4, 0x65, 2, 2, 0x80]),
        _ => panic!("no bytes"),
    }
    let (steps, _) = w.ingest_au(&p_frame(3), 66 * MS);
    match &steps[..] {
        [FileStep::Append(b)] => assert_eq!(b, &vec![0, 0, 0, 3, 0x41, 3, 0x80]),
        _ => panic!("no bytes"),
    }
    let (steps, e) = w.end();
    assert!(e.is_none());
    match &steps[..] {
        [FileStep::Patch(n), FileStep::Append(moov)] => {
            assert_eq!(*n, 8 + 8 + 7);
            assert_eq!(be32(moov, 0) as usize, moov.len());
            assert_eq!(&moov[4..8], b"moov");
        }
        _ => panic!("not closed"),
    }
}

#[test]
fn an_empty_recording_is_removed() {
    let mut w = Writer::new();
    let (steps, done) = w.writer_loop(Msg::Au { bytes: p_frame(1), at: 0 });
    assert!(steps.is_empty() && done.is_none());
    let (steps, done) = w.writer_loop(Msg::Stop);
    assert!(matches!(&steps[..], [FileStep::Delete]));
    assert!(matches!(done, Some(Ok(()))));
}

#[test]
fn a_turn_of_the_phone_begins_another_file() {
    let mut w = Writer::new();
    w.ingest_au(&keyframe(&WIDE, 2), 0);
    let (steps, e) = w.ingest_au(&keyframe(&TALL, 3), 33 * MS);
    assert!(e.is_none());
    assert!(matches!(
        &steps[..],
        [
            FileStep::Patch(_),
            FileStep::Append(_),
            FileStep::NextName,
            FileStep::Create,
            FileStep::Append(_)
        ]
    ));
}

#[test]
fn another_size_goes_on_in_the_same_file() {
    let mut m = Mux::create();
    assert!(matches!(m.push(&keyframe(&WIDE, 1), 3000, true), Ok(Push::Written(_))));
    assert!(matches!(m.push(&p_frame(1), 0, false), Ok(Push::Written(_))));
    assert!(matches!(m.push(&keyframe(&HD, 1), 3000, true), Ok(Push::Written(_))));
    assert!(matches!(m.push(&keyframe(&TALL, 1), 3000, true), Ok(Push::OrientFlip)));
    assert_eq!(m.descs.len(), 2);
    assert_eq!((m.descs[0].width, m.descs[0].height), (1920, 1080));
    assert_eq!((m.descs[1].width, m.descs[1].height), (1280, 720));
    assert_eq!(m.chunks.len(), 2);
    assert_eq!((m.chunks[0].off, m.chunks[0].count), (DATA_AT, 2));
    assert_eq!(m.chunks[1].off, DATA_AT + 8 + 7);
    assert_eq!(m.samples[1].dur, 1, "no sample lasts no time");
    assert!(matches!(m.push(&[], 3000, false), Ok(Push::Dropped)));
    let (len, moov) = m.finish();
    assert_eq!(len, 8 + 8 + 7 + 8);
    assert!(moov.is_ok());
}

#[test]
fn a_file_without_samples_has_no_index() {
    let m = Mux::create();
    assert!(matches!(m.finish(), (8, Err(MuxError::NoSamples))));
    let mut m = Mux::create();
    assert!(matches!(m.push(&p_frame(1), 3000, false), Ok(Push::Dropped)));
    let short = unit(&[&[0x67, 0x42, 0x00], &PPS, &[0x65, 1]]);
    assert!(!matches!(m.push(&short, 3000, true), Ok(Push::Written(_))));
}

/// The contents of the box with a name, inside others.
fn find<'a>(b: &'a [u8], name: &[u8]) -> &'a [u8] {
    let i = b.windows(4).position(|w| w == name).unwrap();
    let n = be32(b, i - 4) as usize;
    &b[i + 4..i - 4 + n]
}

#[test]
fn tables_tell_where_samples_are() {
    let samples = vec![
        Sample { size: 10, dur: 3000, sync: true },
        Sample { size: 20, dur: 3000, sync: false },
        Sample { size: 30, dur: 1500, sync: true },
    ];
    let descs = vec![Desc {
        width: 1920,
        height: 1080,
        avcc: avcc_box(&WIDE, &PPS).unwrap(),
        sps: WIDE.to_vec(),
    }];
    let chunks = vec![Chunk { off: 40, count: 3, desc: 1 }];
    let b = moov_box(&samples, &descs, &chunks).unwrap();
    let stsz = find(&b, b"stsz");
    assert_eq!(be32(stsz, 8), 3);
    assert_eq!([be32(stsz, 12), be32(stsz, 16), be32(stsz, 20)], [10, 20, 30]);
    let stss = find(&b, b"stss");
    assert_eq!([be32(stss, 4), be32(stss, 8), be32(stss, 12)], [2, 1, 3]);
    let stts = find(&b, b"stts");
    assert_eq!(be32(stts, 4), 2);
    assert_eq!([be32(stts, 8), be32(stts, 12)], [2, 3000]);
    assert_eq!([be32(stts, 16), be32(stts, 20)], [1, 1500]);
    let stco = find(&b, b"stco");
    assert_eq!([be32(stco, 4), be32(stco, 8)], [1, 40]);
    let mdhd = find(&b, b"mdhd");
    assert_eq!(be32(mdhd, 12), TIMESCALE);
    assert_eq!(be32(mdhd, 16), 7500);
    assert!(matches!(moov_box(&[], &descs, &chunks), Err(MuxError::NoSamples)));
}

#[test]
fn names_are_free_and_carry_the_time() {
    let stamp = local_stamp(2024, 3, 5, 7, 8, 9);
    assert_eq!(stamp, "20240305-070809");
    assert_eq!(recording_name(&stamp, 0), "pocketcam-20240305-070809.mp4");
    assert_eq!(recording_name(&stamp, 12), "pocketcam-20240305-070809-12.mp4");
    assert!(matches!(new_path(&[true, true, false]), Ok(2)));
    assert!(matches!(new_path(&[true; 1000]), Err(RecordError::NoName)));
}

#[test]
fn errors_have_words() {
    assert_eq!(RecordError::AlreadyRecording.message(), "already recording");
    assert_eq!(RecordError::NoName.message(), "could not pick a recording name");
    assert_eq!(RecordError::NoSamples.message(), "no samples");
    assert_eq!(RecordError::BadParams.message(), "bad SPS/PPS");
    assert!(RecordError::TooLarge.message().contains("4 GB"));
}

#[test]
fn the_recorder_runs_once() {
    let mut r = Recorder::new();
    assert!(!r.is_on());
    r.start("a.mp4".into()).unwrap();
    assert!(matches!(r.start("b.mp4".into()), Err(RecordError::AlreadyRecording)));
    assert!(r.take_pli());
    assert!(!r.take_pli());
    r.moved_to("c.mp4".into());
    assert_eq!(r.last_path().as_deref(), Some("c.mp4"));
    r.failed("disk full");
    assert!(!r.is_on());
    assert_eq!(
        r.take_notices(),
        vec!["Phone rotated — recording c.mp4", "Recording stopped: disk full"]
    );
    assert!(!r.stop());
    r.push_notice("x".into());
    assert_eq!(r.take_notices().len(), 1);
}

#[test]
fn a_finished_recording_can_be_read_back() {
    let mut w = Writer::new();
    let mut file: Vec<u8> = Vec::new();
    let mut perform = |steps: Vec<FileStep>| {
        for step in steps {
            match step {
                FileStep::Create => file = preamble(),
                FileStep::Append(b) => file.extend_from_slice(&b),
                FileStep::Patch(n) => file[32..36].copy_from_slice(&n.to_be_bytes()),
                FileStep::NextName | FileStep::Delete => panic!("another file"),
            }
        }
        file.clone()
    };
    let units = [keyframe(&WIDE, 7), p_frame(8), keyframe(&HD, 9), p_frame(10)];
    for (i, au) in units.iter().enumerate() {
        perform(w.writer_loop(Msg::Au { bytes: au.clone(), at: 33 * MS * i as u64 }).0);
    }
    let (steps, done) = w.writer_loop(Msg::Stop);
    assert!(matches!(done, Some(Ok(()))));
    let f = perform(steps);
    let data = be32(&f, 32) as usize;
    assert_eq!(&f[4..8], b"ftyp");
    assert_eq!(&f[36..40], b"mdat");
    assert_eq!(&f[32 + data + 4..32 + data + 8], b"moov");
    let moov = &f[32 + data..];
    assert_eq!(be32(moov, 0) as usize, moov.len());
    let (stsz, stco) = (find(moov, b"stsz"), find(moov, b"stco"));
    assert_eq!(be32(stsz, 8), 4);
    assert_eq!(be32(stco, 4), 2);
    // Two samples in each chunk.
    for chunk in 0..2 {
        let mut at = be32(stco, 8 + 4 * chunk) as usize;
        for k in 0..2 {
            let i = 2 * chunk + k;
            let size = be32(stsz, 12 + 4 * i) as usize;
            assert_eq!(&f[at..at + size], &annexb_to_avcc(&units[i])[..]);
            at += size;
        }
    }
}
