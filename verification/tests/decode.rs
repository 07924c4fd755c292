use pocketcam::decode::{
    bgrx_dims, bgrx_extent, copy_crop_nv12, crop_size, fill_crop_nv12, fill_rgb_from_bgrx,
    fill_rgb_from_nv12, hresult_oom, infer_stride, is_oom, native_display_size, nv12_extent,
    pick_stride, plane_of, preview_dims, preview_rgb_mode, provides_samples, resolve_crop,
    rgb_from_bgrx, rgb_from_nv12, scaled_size, uv_plane_rows, yuv709_full, CallResult, Crop, DecodeError, FeedStep, MfH264Decoder,
    OutputLayout, OutputStep, PreviewRgb, Route, SpsChange,
};
use pocketcam::preview::PreviewPlan;
use pocketcam::sps::SpsCrop;

const MS: u64 = 1_000_000;

fn layout(w: u32, h: u32) -> OutputLayout {
    OutputLayout { frame_w: w, frame_h: h, default_stride: None, aperture: None, sps_crop: None }
}

#[test]
fn pictures_keep_to_their_rate() {
    let plan = PreviewPlan { skip_always: false, native: false, max_long: 1280, max_fps: Some(30) };
    let mut last = None;
    assert!(matches!(
        preview_rgb_mode(true, plan, &mut last, 0),
        PreviewRgb::Downscale { max_long: 1280 }
    ));
    assert_eq!(last, Some(0));
    assert!(matches!(preview_rgb_mode(true, plan, &mut last, 33 * MS), PreviewRgb::Skip));
    assert!(matches!(
        preview_rgb_mode(true, plan, &mut last, 34 * MS),
        PreviewRgb::Downscale { .. }
    ));
    assert!(matches!(preview_rgb_mode(false, plan, &mut last, 9_000 * MS), PreviewRgb::Skip));
    let native = PreviewPlan { native: true, max_fps: None, ..plan };
    assert!(matches!(preview_rgb_mode(true, native, &mut last, 9_000 * MS), PreviewRgb::Native));
}

#[test]
fn padding_is_cropped() {
    let c = resolve_crop(&layout(1920, 1088), 1920, 1088);
    assert_eq!((c.x, c.y, c.w, c.h), (0, 0, 1920, 1080));
    let mut l = layout(1920, 1088);
    l.sps_crop = Some(SpsCrop { x: 2, y: 4, w: 640, h: 480 });
    let c = resolve_crop(&l, 1920, 1088);
    assert_eq!((c.x, c.y, c.w, c.h), (2, 4, 640, 480));
    assert_eq!(native_display_size(&layout(1920, 1088), 1, 1), (1920, 1080));
    assert_eq!(native_display_size(&layout(0, 0), 7, 9), (7, 9));
}

#[test]
fn strides_are_found_out() {
    assert_eq!(infer_stride(1920, 1080, 1920 * 1080 * 3 / 2), 1920);
    assert_eq!(infer_stride(1920, 1080, 2048 * 1080 * 3 / 2), 2048);
    assert_eq!(infer_stride(1920, 1080, 1920 * 1088 * 3 / 2), 1920);
    let mut l = layout(1920, 1080);
    l.default_stride = Some(-2048);
    assert_eq!(pick_stride(&l, 0), 2048);
    assert_eq!(uv_plane_rows(1080, 1920, 1920 * 1088 * 3 / 2), 1088);
    assert_eq!(uv_plane_rows(1080, 1920, 1920 * 1080 * 3 / 2), 1080);
}

#[test]
fn colours() {
    assert_eq!(yuv709_full(0, 128, 128), 0);
    assert_eq!(yuv709_full(255, 128, 128), 0xff_ffff);
    assert_eq!(yuv709_full(128, 128, 128), 0x80_8080);
    assert_eq!(yuv709_full(54, 99, 255) >> 16, 255);
}

#[test]
fn sizes_are_scaled() {
    assert_eq!(scaled_size(1920, 1080, 1280), (1280, 720));
    assert_eq!(scaled_size(1080, 1920, 1280), (720, 1280));
    assert_eq!(scaled_size(640, 480, 1280), (640, 480));
}

#[test]
fn planes_are_cropped_and_converted() {
    // 4×4 with a stride of 6.
    let mut data = vec![0u8; 6 * 4 + 6 * 2];
    for y in 0..4 {
        for x in 0..4 {
            data[y * 6 + x] = (10 * y + x) as u8;
        }
    }
    data[24..].fill(128);
    let crop = Crop { x: 2, y: 2, w: 2, h: 2 };
    let mut out = Vec::new();
    assert_eq!(copy_crop_nv12(&data, 6, 4, crop, &mut out), Ok((2, 2)));
    assert_eq!(out, vec![22, 23, 32, 33, 128, 128]);
    let mut rgb = Vec::new();
    assert_eq!(rgb_from_nv12(&data, 6, 4, crop, None, &mut rgb), Ok((2, 2)));
    assert_eq!(rgb, vec![0x16_1616, 0x17_1717, 0x20_2020, 0x21_2121]);
    let wide = Crop { x: 4, y: 0, w: 4, h: 2 };
    assert_eq!(copy_crop_nv12(&data, 6, 4, wide, &mut out), Err(DecodeError::Outside));
    assert_eq!(copy_crop_nv12(&data[..30], 6, 4, crop, &mut out), Err(DecodeError::Short));
    let (w, h) = (3842u64, 2162u64);
    let large = vec![128u8; (w * h + w * h / 2) as usize];
    let whole = Crop { x: 0, y: 0, w, h };
    assert_eq!(
        rgb_from_nv12(&large, w, h, whole, None, &mut rgb),
        Err(DecodeError::Range(w * h))
    );
    assert_eq!(rgb_from_nv12(&large, w, h, whole, Some(1920), &mut rgb), Ok((1920, 1080)));
}

#[test]
fn converted_pictures_are_read() {
    let mut l = layout(2, 2);
    l.sps_crop = Some(SpsCrop { x: 0, y: 0, w: 2, h: 2 });
    let data = [1u8, 2, 3, 0, 4, 5, 6, 0, 7, 8, 9, 0, 10, 11, 12, 0];
    let mut out = Vec::new();
    assert_eq!(rgb_from_bgrx(&data, 8, 2, 2, &l, &mut out), Ok((2, 2)));
    assert_eq!(out, vec![0x03_0201, 0x06_0504, 0x09_0807, 0x0c_0b0a]);
    assert_eq!(plane_of(&l, 8, 16), (2, 2));
    assert_eq!(plane_of(&l, 8, 32), (2, 4));
    assert_eq!(plane_of(&l, 3, 32), (2, 2));
    assert!(rgb_from_bgrx(&data[..3], 8, 2, 2, &l, &mut out).is_err());
}

#[test]
fn only_what_is_read_must_be_there() {
    // The upper half of a 4×4 picture: its one chroma row ends at byte 20.
    let data: Vec<u8> = (0..24).collect();
    let crop = Crop { x: 0, y: 0, w: 4, h: 2 };
    let mut out = Vec::new();
    assert_eq!(nv12_extent(4, 4, crop), 20);
    assert_eq!(copy_crop_nv12(&data[..20], 4, 4, crop, &mut out), Ok((4, 2)));
    assert_eq!(out, vec![0, 1, 2, 3, 4, 5, 6, 7, 16, 17, 18, 19]);
    assert_eq!(crop_size(20, 4, 4, crop), Ok(12));
    assert_eq!(copy_crop_nv12(&data[..19], 4, 4, crop, &mut out), Err(DecodeError::Short));
    assert_eq!(out.len(), 12, "an error changes nothing");
    // The preview repeats the last clean sample, so it reads less.
    let mut rgb = Vec::new();
    assert_eq!(rgb_from_nv12(&data[..18], 4, 4, crop, None, &mut rgb), Ok((4, 2)));
    assert_eq!(rgb[1], rgb[3]);
    assert_eq!(preview_dims(18, 4, 4, crop, None), Ok((4, 2)));
    assert_eq!(
        rgb_from_nv12(&data[..17], 4, 4, crop, None, &mut rgb),
        Err(DecodeError::Short)
    );
    assert_eq!(rgb.len(), 8);
    // Both planes are enough for any crop, and a crop's bytes for its preview.
    for (x, y, w, h) in [(0, 0, 4, 4), (2, 2, 2, 2), (0, 2, 4, 2), (2, 0, 2, 4)] {
        let c = Crop { x, y, w, h };
        let extent = nv12_extent(4, 4, c) as usize;
        assert!(extent <= 24);
        assert_eq!(preview_dims(extent, 4, 4, c, None), Ok((w as u32, h as u32)));
        assert_eq!(preview_dims(extent, 4, 4, c, Some(2)), Ok((2, 2)));
    }
    let mut l = layout(2, 2);
    l.sps_crop = Some(SpsCrop { x: 0, y: 0, w: 2, h: 2 });
    assert_eq!(bgrx_extent(8, Crop { x: 0, y: 0, w: 2, h: 2 }), 15);
    assert_eq!(rgb_from_bgrx(&data[..15], 8, 2, 2, &l, &mut rgb), Ok((2, 2)));
    assert_eq!(bgrx_dims(15, 8, 2, 2, &l), Ok((2, 2)));
    assert_eq!(rgb_from_bgrx(&data[..14], 8, 2, 2, &l, &mut rgb), Err(DecodeError::Short));
    assert_eq!(rgb, vec![0x02_0100, 0x06_0504, 0x0a_0908, 0x0e_0d0c]);
}

#[test]
fn without_room_nothing_is_left_behind() {
    let data = [128u8; 24];
    let crop = Crop { x: 0, y: 0, w: 4, h: 4 };
    let outside = Crop { x: 2, ..crop };
    let mut out = vec![7u8; 24];
    assert_eq!(fill_crop_nv12(&data, 4, 4, crop, &mut out, true), Ok((4, 4)));
    assert_eq!(out, data);
    assert_eq!(
        fill_crop_nv12(&data, 4, 4, outside, &mut out, false),
        Err(DecodeError::Outside)
    );
    assert_eq!(
        fill_crop_nv12(&data[..23], 4, 4, crop, &mut out, false),
        Err(DecodeError::Short)
    );
    assert_eq!(out, data);
    assert_eq!(
        fill_crop_nv12(&data, 4, 4, crop, &mut out, false),
        Err(DecodeError::Alloc(24))
    );
    assert!(out.is_empty());
    let mut rgb = vec![7u32; 3];
    assert_eq!(
        fill_rgb_from_nv12(&data, 4, 4, outside, None, &mut rgb, false),
        Err(DecodeError::Outside)
    );
    assert_eq!(rgb, vec![7; 3]);
    assert_eq!(
        fill_rgb_from_nv12(&data, 4, 4, crop, None, &mut rgb, false),
        Err(DecodeError::Alloc(16))
    );
    assert!(rgb.is_empty());
    assert_eq!(fill_rgb_from_nv12(&data, 4, 4, crop, Some(2), &mut rgb, true), Ok((2, 2)));
    assert_eq!(rgb, vec![0x80_8080; 4]);
    let mut l = layout(2, 2);
    l.sps_crop = Some(SpsCrop { x: 0, y: 0, w: 2, h: 2 });
    assert_eq!(fill_rgb_from_bgrx(&data, 8, 2, 2, &l, &mut rgb, true), Ok((2, 2)));
    assert_eq!(
        fill_rgb_from_bgrx(&data, 8, 2, 2, &l, &mut rgb, false),
        Err(DecodeError::Alloc(4))
    );
    assert!(rgb.is_empty());
}

#[test]
fn memory_runs_out_gently() {
    assert!(is_oom("MF: 0x8007000E"));
    assert!(is_oom("RGB alloc 12"));
    assert!(!is_oom("other"));
    assert!(hresult_oom(0x8007_000Eu32 as i32));
    assert!(provides_samples(0x100));
    assert!(!provides_samples(0x1));
    let mut d = MfH264Decoder::new();
    d.refresh_output_info(1280, 720, None, None);
    assert!(matches!(
        d.process_output(CallResult::Done, PreviewRgb::Native, true, 0),
        OutputStep::Frame { pack: true, route: Route::Convert }
    ));
    assert!(matches!(d.decode_access_unit(CallResult::NoMemory, false, 0), FeedStep::Drop));
    assert!(d.take_oom());
    assert!(!d.take_oom());
    assert!(matches!(
        d.process_output(CallResult::Done, PreviewRgb::Native, false, 0),
        OutputStep::Frame { pack: false, route: Route::Planes { max_long: None } }
    ));
    assert!(!d.note_oom(MS));
    assert!(d.note_oom(2_000 * MS));
    assert!(matches!(d.after_convert(false, true, 0), Route::Nothing));
}

#[test]
fn the_decoder_is_driven_step_by_step() {
    let mut d = MfH264Decoder::new();
    assert!(matches!(d.decode_access_unit(CallResult::Done, false, 0), FeedStep::Drain));
    assert!(matches!(
        d.decode_access_unit(CallResult::NotAccepting, false, 0),
        FeedStep::DrainAndRetry
    ));
    assert!(matches!(d.decode_access_unit(CallResult::NotAccepting, true, 0), FeedStep::Fail));
    assert!(matches!(
        d.process_output(CallResult::NeedMoreInput, PreviewRgb::Skip, true, 0),
        OutputStep::Done
    ));
    assert!(matches!(
        d.process_output(CallResult::StreamChange, PreviewRgb::Skip, true, 0),
        OutputStep::Reselect
    ));
    assert!(matches!(
        d.process_output(CallResult::Failed, PreviewRgb::Skip, true, 0),
        OutputStep::Fail
    ));
    let wide = [0, 0, 1, 0x67, 0x42, 0x00, 0x28, 0xda, 0x01, 0xe0, 0x08, 0x9f, 0x95];
    let tall = [0, 0, 1, 0x67, 0x42, 0x00, 0x28, 0xda, 0x01, 0x10, 0x0f, 0x1e, 0x5d];
    assert_eq!(d.note_sps(&wide), SpsChange::First);
    assert_eq!(d.note_sps(&wide), SpsChange::Same);
    assert_eq!(d.src_long(), 1920);
    assert_eq!(d.note_sps(&tall), SpsChange::Other);
    assert_eq!(d.note_sps(&[]), SpsChange::Same);
    d.color = true;
    d.refresh_output_info(3840, 2160, None, None);
    assert!(d.before_output());
    assert!(!d.color);
}
