use pocketcam::ipc::nv12_size;
use pocketcam::nv12::{contain_fit, fill_black, waiting_still, MARK_PX};

#[test]
fn portrait_rotates_to_fill_landscape() {
    let src_w = 1080u32;
    let src_h = 1920u32;
    let mut src = vec![0u8; nv12_size(src_w, src_h) as usize];
    src[..(src_w * src_h) as usize].fill(200);
    src[0] = 99;
    let mut dst = vec![0u8; nv12_size(1920, 1080) as usize];
    contain_fit(&src, src_w, src_h, &mut dst, 1920, 1080);
    assert_eq!(dst[1919], 99, "src(0,0) → dest top-right");
    assert_eq!(dst[1920 * 540 + 960], 200);
    assert_ne!(dst[0], 16, "no letterbox after rotate-to-fill");
}

#[test]
fn landscape_copy_is_1to1() {
    let mut src = vec![0u8; nv12_size(1920, 1080) as usize];
    src[..1920 * 1080].fill(180);
    src[0] = 40;
    let mut dst = vec![0u8; nv12_size(1920, 1080) as usize];
    contain_fit(&src, 1920, 1080, &mut dst, 1920, 1080);
    assert_eq!(dst[0], 40);
    assert_eq!(dst[100], 180);
}

/// A square of white, opaque pixels, as large as the mark is drawn.
fn mark() -> Vec<u8> {
    vec![255u8; (MARK_PX * MARK_PX * 4) as usize]
}

#[test]
fn waiting_still_paints_mark_and_words() {
    let mut dst = vec![0u8; nv12_size(1280, 720) as usize];
    waiting_still(&mut dst, 1280, 720, &mark());
    let y = &dst[..1280 * 720];
    let bright = y.iter().filter(|&&p| p > 180).count();
    assert!(bright > 800, "icon + POCKETCAM + WAITING should light pixels, got {bright}");
    assert!(y.iter().all(|&p| p >= 16), "limited-range luma");
}

#[test]
fn words_stand_alone_without_a_mark() {
    let mut plain = vec![0u8; nv12_size(1280, 720) as usize];
    waiting_still(&mut plain, 1280, 720, &[]);
    let words = plain[..1280 * 720].iter().filter(|&&p| p > 180).count();
    assert!(words > 0);
    let mut whole = vec![0u8; nv12_size(1280, 720) as usize];
    waiting_still(&mut whole, 1280, 720, &mark());
    let all = whole[..1280 * 720].iter().filter(|&&p| p > 180).count();
    assert!(all > words);
}

#[test]
fn black_is_limited_range() {
    let mut dst = vec![7u8; nv12_size(4, 4) as usize];
    fill_black(&mut dst, 4, 4);
    assert!(dst[..16].iter().all(|&p| p == 16));
    assert!(dst[16..].iter().all(|&p| p == 128));
}

#[test]
fn other_shapes_are_letterboxed() {
    let src = {
        let mut s = vec![128u8; nv12_size(640, 480) as usize];
        s[..640 * 480].fill(200);
        s
    };
    let mut dst = vec![0u8; nv12_size(1920, 1080) as usize];
    contain_fit(&src, 640, 480, &mut dst, 1920, 1080);
    assert_eq!(dst[1920 * 540], 16, "left bar");
    assert_eq!(dst[1920 * 540 + 960], 200, "picture");
    assert_eq!(dst[1920 * 540 + 1919], 16, "right bar");
    assert_eq!(dst[960], 200, "the picture reaches the top");
    assert_eq!(dst[1920 * 1079 + 960], 200, "and the bottom");
    // 1440 of 1920 columns hold the picture.
    let row = &dst[1920 * 540..1920 * 541];
    assert_eq!(row.iter().filter(|&&p| p == 200).count(), 1440);
}

#[test]
fn four_quarter_turns_give_the_picture_back() {
    let (w, h) = (16u32, 8u32);
    let mut src = vec![0u8; nv12_size(w, h) as usize];
    for (i, b) in src.iter_mut().enumerate() {
        *b = (i * 7 % 251) as u8;
    }
    let mut a = vec![0u8; src.len()];
    let mut b = vec![0u8; src.len()];
    contain_fit(&src, w, h, &mut a, h, w);
    contain_fit(&a, h, w, &mut b, w, h);
    let turned_twice = b.clone();
    contain_fit(&turned_twice, w, h, &mut a, h, w);
    contain_fit(&a, h, w, &mut b, w, h);
    assert_eq!(b, src);
}
