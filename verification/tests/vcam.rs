use pocketcam::ipc::{nv12_size, ring_bytes};
use pocketcam::preview::quality_by_id;
use pocketcam::vcam::{must_replace, FormatStep, StartPlan, Vcam};

#[test]
fn a_ring_of_another_size_is_replaced() {
    let len = ring_bytes(1920, 1080) as u64;
    assert!(must_replace(None, 0, 1920, 1080));
    assert!(!must_replace(Some((1920, 1080, 60)), len, 1920, 1080));
    assert!(!must_replace(Some((1920, 1080, 60)), 0, 1920, 1080));
    assert!(must_replace(Some((1920, 1080, 30)), len - 1, 1920, 1080));
    assert!(must_replace(Some((1280, 720, 30)), len, 1920, 1080));
}

#[test]
fn the_camera_starts_at_a_quality() {
    let q = quality_by_id("720p30").unwrap();
    let mut v = Vcam::new();
    assert_eq!(v.canvas(), (1920, 1080));
    let plan = Vcam::plan_start(Some((1920, 1080, 30)), 0, &q);
    assert_eq!(plan, StartPlan { existed: true, replace: true });
    let e = v.ring_opened(&q, (1920, 1080, 30)).unwrap_err();
    assert_eq!((e.width, e.height), (1920, 1080));
    v.ring_opened(&q, (1280, 720, 30)).unwrap();
    let s = v.start(plan, true);
    assert!(s.replaced && v.is_on());
    assert_eq!((s.width, s.height, s.fps), (1280, 720, 30));
    v.stop();
    assert!(!v.is_on());
}

#[test]
fn the_size_stays_while_the_camera_is_on() {
    let mut v = Vcam::new();
    v.on = true;
    assert_eq!(v.set_format(&quality_by_id("720p30").unwrap()), FormatStep::Nothing);
    assert_eq!(v.canvas(), (1920, 1080));
    assert_eq!(v.set_format(&quality_by_id("1080p60").unwrap()), FormatStep::SetFps(60));
    assert_eq!(v.canvas, (1920, 1080, 60));
    v.stop();
    assert_eq!(v.set_format(&quality_by_id("720p30").unwrap()), FormatStep::Nothing);
    assert_eq!(v.canvas(), (1280, 720));
}

#[test]
fn pictures_go_to_the_ring_while_the_camera_is_on() {
    let mut v = Vcam::new();
    v.set_format(&quality_by_id("480p30").unwrap());
    let still = v.write_waiting(&[]);
    assert_eq!(still.len(), nv12_size(854, 480) as usize);
    assert!(still[..854 * 480].iter().all(|&p| p >= 16));
    let src = vec![200u8; nv12_size(854, 480) as usize];
    let mut dst = Vec::new();
    assert!(!v.write_contain(&src, 854, 480, &mut dst));
    assert!(dst.is_empty());
    v.on = true;
    assert!(v.write_contain(&src, 854, 480, &mut dst));
    assert_eq!(dst, src);
    v.notices.push("x".into());
    assert_eq!(v.take_notices().len(), 1);
    assert!(v.take_notices().is_empty());
}
