use pocketcam::sps::{sps_crop_from_annex_b, start_code_len, SpsCrop};

#[test]
fn tighten_1080p_crop_units() {
    // 1920x1088 coded, bottom crop 4 (×2 luma) → 1080.
    assert_eq!(1088 - 4 * 2, 1080);
    let crop = sps_crop_from_annex_b(&[
        0, 0, 0, 1, 0x67, 0x42, 0x00, 0x28, 0xda, 0x01, 0xe0, 0x08, 0x9f, 0x95,
    ]);
    assert_eq!(crop, Some(SpsCrop { x: 0, y: 0, w: 1920, h: 1080 }));
}

#[test]
fn high_profile_with_stuffing() {
    let mut au = vec![0, 0, 1, 9, 0x10, 0, 0, 0, 1];
    au.extend_from_slice(&[
        0x67, 0x64, 0x00, 0x28, 0xac, 0xd9, 0x40, 0x78, 0x02, 0x27, 0xe5, 0xc0, 0x44, 0x00, 0x00,
        0x03, 0x00, 0x04, 0x00, 0x00, 0x03, 0x00, 0xf0, 0x3c, 0x60, 0xc6, 0x58,
    ]);
    assert_eq!(
        sps_crop_from_annex_b(&au),
        Some(SpsCrop { x: 0, y: 0, w: 1920, h: 1080 })
    );
}

#[test]
fn portrait_and_uncropped() {
    assert_eq!(
        sps_crop_from_annex_b(&[
            0, 0, 1, 0x67, 0x42, 0x00, 0x28, 0xda, 0x01, 0x10, 0x0f, 0x1e, 0x5d
        ]),
        Some(SpsCrop { x: 0, y: 0, w: 1080, h: 1920 })
    );
    assert_eq!(
        sps_crop_from_annex_b(&[0, 0, 1, 0x67, 0x42, 0x00, 0x28, 0xda, 0x01, 0x40, 0x16, 0xe4]),
        Some(SpsCrop { x: 0, y: 0, w: 1280, h: 720 })
    );
}

#[test]
fn what_cannot_be_read_has_no_crop() {
    assert_eq!(sps_crop_from_annex_b(&[]), None);
    assert_eq!(sps_crop_from_annex_b(&[0, 0, 0, 1, 0x41, 1, 2, 3]), None);
    assert_eq!(sps_crop_from_annex_b(&[0, 0, 0, 1, 0x67, 0x42]), None);
}

#[test]
fn start_codes() {
    assert_eq!(start_code_len(&[0, 0, 0, 1], 0), 4);
    assert_eq!(start_code_len(&[0, 0, 1], 0), 3);
    assert_eq!(start_code_len(&[0, 0, 2], 0), 0);
}
