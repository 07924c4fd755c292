use pocketcam::float::Single;
use pocketcam::icon::{
    bgra, fg_hex, pack_ico, recolor, IcoPicture, TrayTint, DARK_FG, LIGHT_FG,
};

/// A rate as the library takes it.
fn fps(v: f32) -> Single {
    Single { bits: v.to_bits() }
}

#[test]
fn tray_tint_bands() {
    assert_eq!(TrayTint::from_fps(fps(30.0), 30), TrayTint::Good);
    assert_eq!(TrayTint::from_fps(fps(29.0), 30), TrayTint::Good);
    assert_eq!(TrayTint::from_fps(fps(28.0), 30), TrayTint::Warn);
    assert_eq!(TrayTint::from_fps(fps(25.0), 30), TrayTint::Warn);
    assert_eq!(TrayTint::from_fps(fps(24.0), 30), TrayTint::Bad);
    assert_eq!(TrayTint::from_fps(fps(0.0), 30), TrayTint::Bad);
}

#[test]
fn slow_qualities_have_no_bad_band() {
    assert_eq!(TrayTint::from_fps(fps(0.0), 0), TrayTint::Good);
    assert_eq!(TrayTint::from_fps(fps(0.0), 1), TrayTint::Good);
    assert_eq!(TrayTint::from_fps(fps(0.0), 4), TrayTint::Warn);
    assert_eq!(TrayTint::from_fps(fps(0.0), 5), TrayTint::Warn);
    assert_eq!(TrayTint::from_fps(fps(0.0), 6), TrayTint::Bad);
    assert_eq!(TrayTint::from_fps(fps(28.999), 30), TrayTint::Warn);
}

#[test]
fn tints_have_their_colours() {
    assert_eq!(TrayTint::Idle.hex(), "#ffffff");
    assert_eq!(TrayTint::Good.hex(), "#22c55e");
    assert_eq!(TrayTint::Warn.hex(), "#eab308");
    assert_eq!(TrayTint::Bad.hex(), "#ef4444");
    assert_eq!(fg_hex(true), LIGHT_FG);
    assert_eq!(fg_hex(false), DARK_FG);
    assert_eq!(fg_hex(true), "#18181b");
    assert_eq!(fg_hex(false), "#f4f4f5");
}

#[test]
fn the_mark_takes_a_colour() {
    let svg = "<path fill=\"currentColor\"/><path stroke=\"currentColor\"/>";
    assert_eq!(
        recolor(svg, "#ef4444"),
        "<path fill=\"#ef4444\"/><path stroke=\"#ef4444\"/>"
    );
    assert_eq!(recolor("currentColo", "x"), "currentColo");
}

#[test]
fn red_and_blue_change_places() {
    let rgba = [1u8, 2, 3, 4, 5, 6, 7, 8];
    let once = bgra(&rgba, 2);
    assert_eq!(once, vec![3, 2, 1, 4, 7, 6, 5, 8]);
    assert_eq!(bgra(&once, 2), rgba.to_vec());
    assert_eq!(bgra(&rgba, 1), vec![3, 2, 1, 4]);
}

#[test]
fn icon_files_hold_their_pictures() {
    let b = pack_ico(&[
        IcoPicture { size: 16, png: vec![1, 2, 3] },
        IcoPicture { size: 256, png: vec![4, 5] },
    ]);
    assert_eq!(&b[..6], &[0, 0, 1, 0, 2, 0]);
    assert_eq!(&b[6..14], &[16, 16, 0, 0, 1, 0, 32, 0]);
    assert_eq!(&b[14..22], &[3, 0, 0, 0, 38, 0, 0, 0]);
    assert_eq!(b[22], 0, "256 is told as 0");
    assert_eq!(&b[30..38], &[2, 0, 0, 0, 41, 0, 0, 0]);
    assert_eq!(&b[38..], &[1, 2, 3, 4, 5]);
}
