use pocketcam::float::Single;
use pocketcam::preview::{FrameSlot, PreviewControl, PreviewEncoding, StreamStats};
use pocketcam::session::{
    after_decode, codec_line, feedback, ip_filter, is_h264, note_paused, register_h264_lan, AuQueue,
    DecodeLoop, DecodeStep, Decoded, Track, AU_Q_MAX, PLI_GAP,
};
use pocketcam::settings::Ipv4;

fn p_frame() -> Vec<u8> {
    vec![0, 0, 0, 1, 0x01]
}

fn idr_frame() -> Vec<u8> {
    vec![0, 0, 0, 1, 0x05]
}

#[test]
fn overflow_drops_p_frames_without_latching_idr() {
    let mut q = AuQueue::new();
    assert!(!q.push(p_frame()));
    assert!(!q.push(p_frame()));
    assert!(q.push(p_frame()), "third P-frame overflows");
    assert!(!q.wait_idr, "overflow must not wait for the next keyframe");
    assert_eq!(q.len(), 2);
    assert!(q.pop().is_some());
    assert!(!q.push(p_frame()), "queue accepts again after a pop");
}

#[test]
fn overflow_idr_replaces_queue() {
    let mut q = AuQueue::new();
    assert!(!q.push(p_frame()));
    assert!(!q.push(p_frame()));
    assert!(!q.push(idr_frame()));
    assert!(!q.wait_idr);
    assert_eq!(q.len(), 1);
}

#[test]
fn loss_waits_for_a_keyframe() {
    let mut q = AuQueue::new();
    assert!(!q.push(p_frame()));
    q.request_idr();
    assert!(q.wait_idr);
    assert_eq!(q.len(), 0);
    q.push(p_frame());
    assert_eq!(q.len(), 0);
    assert!(!q.push(idr_frame()));
    assert!(!q.wait_idr);
    assert_eq!(q.len(), 1);
    assert!(q.take_flush());
    assert!(!q.take_flush());
    q.close();
    q.push(idr_frame());
    assert_eq!(AU_Q_MAX, 2);
}

#[test]
fn only_addresses_on_the_lan_are_offered() {
    let wifi = Ipv4::new(192, 168, 1, 20);
    assert!(ip_filter(wifi, None));
    assert!(ip_filter(wifi, Some(wifi)));
    assert!(!ip_filter(Ipv4::new(10, 0, 0, 1), Some(wifi)));
    for no in [
        Ipv4::new(127, 0, 0, 1),
        Ipv4::new(169, 254, 3, 4),
        Ipv4::new(0, 0, 0, 0),
        Ipv4::new(224, 0, 0, 1),
        Ipv4::new(172, 17, 0, 2),
    ] {
        assert!(!ip_filter(no, None));
    }
}

#[test]
fn profiles_are_offered() {
    let p = register_h264_lan();
    assert_eq!(p.len(), 8);
    assert_eq!(p[0].payload_type, 102);
    assert_eq!(p[7].payload_type, 109);
    assert_eq!(p.iter().filter(|x| x.fmtp.contains("packetization-mode=1")).count(), 6);
    assert_eq!(
        p[3].fmtp,
        "level-asymmetry-allowed=1;packetization-mode=1;profile-level-id=640032"
    );
    assert_eq!(feedback(), vec![("nack", ""), ("nack", "pli"), ("ccm", "fir")]);
    assert!(is_h264("video/H264"));
    assert!(!is_h264("video/VP8"));
    assert_eq!(codec_line("video/H264", "a=b"), "video/H264 a=b");
}

#[test]
fn decoding_pauses_and_resumes_with_a_keyframe() {
    let mut p = PreviewControl::new();
    p.set_window_shown(false);
    let mut q = AuQueue::new();
    let mut d = DecodeLoop::new();
    assert!(matches!(d.next(&p_frame(), &p, &mut q, 1920, 0), DecodeStep::Paused));
    p.set_window_shown(true);
    assert!(matches!(d.next(&p_frame(), &p, &mut q, 1920, 1), DecodeStep::WaitIdr));
    assert!(q.wait_idr);
    assert!(!q.push(idr_frame()));
    let au = q.pop().unwrap();
    assert!(matches!(
        d.next(&au, &p, &mut q, 1920, 2),
        DecodeStep::Decode { flush: true, .. }
    ));
    assert!(matches!(
        d.next(&p_frame(), &p, &mut q, 1920, 3),
        DecodeStep::Decode { flush: false, .. }
    ));
}

#[test]
fn a_paused_stream_is_still_alive() {
    let mut s = StreamStats::fresh();
    note_paused(&mut s, &p_frame(), 7);
    assert_eq!(s.last_frame, Some(7));
    assert_eq!(s.decoded, 0);
}

#[test]
fn running_out_of_memory_turns_the_preview_off() {
    let mut s = StreamStats::fresh();
    let mut p = PreviewControl::new();
    let mut slot = FrameSlot::default();
    let ms = |ns: u64| std::time::Duration::from_nanos(ns).as_secs_f32() * 1000.0;
    assert!(!after_decode(&mut s, &mut p, &mut slot, 4_000_000, false, Decoded::Done, 0));
    assert_eq!(s.decode_ms, Single { bits: ms(4_000_000).to_bits() });
    assert!(!after_decode(&mut s, &mut p, &mut slot, 14_000_123, false, Decoded::Done, 0));
    let want = ms(4_000_000) * 0.85 + ms(14_000_123) * 0.15;
    assert_eq!(s.decode_ms, Single { bits: want.to_bits() });
    assert!(after_decode(&mut s, &mut p, &mut slot, 5_500_000, false, Decoded::Failed, 0));
    assert_eq!(p.encoding(), PreviewEncoding::Auto);
    assert!(!after_decode(&mut s, &mut p, &mut slot, 5_500_000, false, Decoded::NoMemory, 0));
    assert_eq!(p.encoding(), PreviewEncoding::Off);
    assert!(s.oom);
}

#[test]
fn packets_become_access_units() {
    let mut t = Track::new(0);
    let mut s = StreamStats::fresh();
    let mut q = AuQueue::new();
    let out = t.on_remote_track((1, 9, false), &[0x67, 1, 2, 3], &mut s, &mut q, true, 0);
    assert!(out.first && !out.wanted);
    t.on_remote_track((2, 9, false), &[0x68, 4], &mut s, &mut q, true, 0);
    let out = t.on_remote_track((3, 9, true), &[0x65, 5], &mut s, &mut q, true, 0);
    assert_eq!(out.record.len(), 1);
    assert_eq!(
        out.record[0],
        vec![0, 0, 0, 1, 0x67, 1, 2, 3, 0, 0, 0, 1, 0x68, 4, 0, 0, 0, 1, 0x65, 5]
    );
    assert_eq!(q.len(), 1);
    let out = t.on_remote_track((5, 10, true), &[0x41, 6], &mut s, &mut q, false, 0);
    assert!(out.log_gaps);
    assert!(out.record.is_empty());
    assert_eq!(s.rtp_gaps, 1);
}

#[test]
fn keyframe_requests_are_spaced() {
    let mut t = Track::new(0);
    assert!(t.pli_due(true, 10));
    assert!(!t.pli_due(true, 10 + PLI_GAP - 1));
    assert!(!t.pli_due(false, 10 + PLI_GAP));
    assert!(t.pli_due(true, 10 + PLI_GAP));
}
