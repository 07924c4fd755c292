use pocketcam::ipc::{
    header_layout, is_user_mapped, nv12_size, open_poll, peek_layout, ring_bytes, slot_stride,
    win32_code, OpenStep, RingWriter, SizeError, FIRST_WAIT_MS, MAGIC, PEEK_BYTES, SLOTS,
};

fn memory(w: &RingWriter) -> Vec<u8> {
    vec![0u8; w.mapped_bytes() as usize]
}

#[test]
fn sizes_640x480() {
    assert_eq!(nv12_size(640, 480), 460800);
    assert_eq!(slot_stride(640, 480), 460800);
    assert_eq!(ring_bytes(640, 480), 256 + 3 * (64 + 460800));
}

#[test]
fn sizes_catalog() {
    assert_eq!(nv12_size(854, 480), 614_880);
    assert_eq!(slot_stride(854, 480), 614_912);
    assert_eq!(nv12_size(1920, 1080), 3_110_400);
    assert_eq!(nv12_size(3840, 2160), 12_441_600);
    assert_eq!(ring_bytes(1920, 1080), 256 + 3 * (64 + 3_110_400));
}

#[test]
fn peek_roundtrip() {
    let writer = RingWriter::open(1920, 1080, 30).unwrap();
    let mut mem = memory(&writer);
    writer.write_header(&mut mem, true);
    assert_eq!(peek_layout(&mem[..PEEK_BYTES]), Some((1920, 1080, 30)));
    assert_eq!(header_layout(&mem), Some((1920, 1080, 30)));
    assert_eq!(u32::from_le_bytes([mem[0], mem[1], mem[2], mem[3]]), MAGIC);
}

#[test]
fn odd_or_empty_sizes_are_refused() {
    assert!(matches!(
        RingWriter::open(1919, 1080, 30),
        Err(SizeError::NotEven { width: 1919, height: 1080 })
    ));
    assert!(RingWriter::open(0, 1080, 30).is_err());
    assert!(RingWriter::open(1920, 1081, 30).is_err());
    assert!(RingWriter::open(1920, 1080, 30).is_ok());
}

#[test]
fn what_is_not_a_ring_has_no_layout() {
    assert_eq!(peek_layout(&[]), None);
    assert_eq!(peek_layout(&[0u8; PEEK_BYTES]), None);
    let writer = RingWriter::open(640, 480, 30).unwrap();
    let mut mem = memory(&writer);
    writer.write_header(&mut mem, true);
    mem[0] ^= 1;
    assert_eq!(peek_layout(&mem[..PEEK_BYTES]), None);
}

#[test]
fn latest_frame_can_be_read_back() {
    let writer = RingWriter::open(16, 16, 30).unwrap();
    let mut mem = memory(&writer);
    writer.write_header(&mut mem, true);
    let n = nv12_size(16, 16) as usize;
    for k in 1..=7u8 {
        let t = writer.ticket(2 * (k as u64 - 1));
        assert_eq!(t.next, 2 * k as u64);
        assert_eq!(t.index, k as u32 % SLOTS);
        writer.write_nv12(&mut mem, &vec![k; n], 1000 + k as u64);
        let word = |at: usize| u64::from_le_bytes(mem[at..at + 8].try_into().unwrap());
        assert_eq!(word(32), t.next);
        assert_eq!(word(t.at), t.next);
        assert_eq!(word(t.at + 8), 1000 + k as u64);
        assert_eq!(&mem[t.at + 16..t.at + 20], &16u32.to_le_bytes());
        assert_eq!(&mem[t.at + 24..t.at + 28], &(n as u32).to_le_bytes());
        assert!(mem[t.at + 64..t.at + 64 + n].iter().all(|&b| b == k));
    }
    let before = mem.clone();
    writer.write_nv12(&mut mem, &vec![9; n - 1], 0);
    assert_eq!(mem, before);
}

#[test]
fn consecutive_frames_go_to_other_slots() {
    let writer = RingWriter::open(640, 480, 30).unwrap();
    let a = writer.ticket(0);
    let b = writer.ticket(a.next);
    let c = writer.ticket(b.next);
    assert_ne!(a.index, b.index);
    assert_ne!(b.index, c.index);
    assert_ne!(a.index, c.index);
    let slot = 64 + slot_stride(640, 480) as usize;
    assert_eq!(a.at, 256 + slot);
    assert_eq!(c.at, 256);
    assert!(b.at + slot <= writer.mapped_bytes() as usize);
}

#[test]
fn frame_rate_can_change_without_a_reset() {
    let mut writer = RingWriter::open(640, 480, 30).unwrap();
    let mut mem = memory(&writer);
    writer.write_header(&mut mem, true);
    writer.set_fps(60, &mut mem);
    assert_eq!(header_layout(&mem), Some((640, 480, 60)));
    assert!(!writer.must_reset(writer.mapped_bytes() as i64, &mem));
    assert!(!writer.must_resize(writer.mapped_bytes() as i64));
    assert!(writer.must_resize(1));
    assert!(writer.must_reset(1, &mem));
}

#[test]
fn mapped_files_are_waited_for() {
    assert_eq!(win32_code(0x8007_04C8u32 as i32), 1224);
    assert!(is_user_mapped(Some(1224)));
    assert!(!is_user_mapped(Some(5)));
    assert!(!is_user_mapped(None));
    assert!(matches!(
        open_poll(Some(1224), 0, 2_000_000_000, FIRST_WAIT_MS),
        OpenStep::Retry { sleep_ms: 8, next_ms: 16 }
    ));
    assert!(matches!(
        open_poll(Some(1224), 0, 2_000_000_000, 32),
        OpenStep::Retry { sleep_ms: 32, next_ms: 40 }
    ));
    assert!(matches!(
        open_poll(Some(1224), 3_000_000_000, 2_000_000_000, FIRST_WAIT_MS),
        OpenStep::StillMapped
    ));
    assert!(matches!(open_poll(Some(5), 0, 2_000_000_000, FIRST_WAIT_MS), OpenStep::Fail));
}
