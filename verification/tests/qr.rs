use pocketcam::qr::{render, render_modules, QrFailure, MODULE, QUIET};

#[test]
fn modules_become_squares_in_a_white_margin() {
    let b = render_modules(2, &[true, false, false, true]);
    assert_eq!(b.size, (2 + 2 * QUIET) * MODULE);
    assert_eq!(b.rgba.len(), b.size * b.size * 4);
    let at = |x: usize, y: usize| &b.rgba[(y * b.size + x) * 4..(y * b.size + x) * 4 + 4];
    assert_eq!(at(0, 0), &[255, 255, 255, 255]);
    let edge = QUIET * MODULE;
    assert_eq!(at(edge, edge), &[17, 17, 17, 255]);
    assert_eq!(at(edge + MODULE - 1, edge), &[17, 17, 17, 255]);
    assert_eq!(at(edge + MODULE, edge), &[255, 255, 255, 255]);
    assert_eq!(at(edge + MODULE, edge + MODULE), &[17, 17, 17, 255]);
    assert_eq!(at(b.size - 1, b.size - 1), &[255, 255, 255, 255]);
}

#[test]
fn links_have_codes() {
    let b = render("https://192.168.1.20:8443/connect/ABCD2345").unwrap();
    let dim = b.size / MODULE - 2 * QUIET;
    assert_eq!((dim - 17) % 4, 0);
    // The first finder pattern: seven dark modules in a row, then a light one.
    let at = |mx: usize, my: usize| {
        let x = (mx + QUIET) * MODULE;
        let y = (my + QUIET) * MODULE;
        b.rgba[(y * b.size + x) * 4]
    };
    assert!((0..7).all(|k| at(k, 0) == 17 && at(0, k) == 17));
    assert_eq!(at(7, 0), 255);
    assert_eq!(at(1, 1), 255);
    assert_eq!(at(3, 3), 17);
    let other = render("https://192.168.1.21:8443/connect/ABCD2345").unwrap();
    assert_ne!(other.rgba, b.rgba);
}

#[test]
fn too_much_has_no_code() {
    assert!(matches!(render(&"x".repeat(4000)), Err(QrFailure::Encode)));
}
