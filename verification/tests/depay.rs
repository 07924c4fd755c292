use pocketcam::depay::{is_idr, H264Depay};

#[test]
fn fragments_rejoin() {
    let mut d = H264Depay::default();
    assert!(d.push(1, 5, false, &[0x67, 9, 9, 9]).is_empty());
    assert!(d.push(2, 5, false, &[0x68, 8]).is_empty());
    // A keyframe in three fragments: indicator, header, bytes.
    assert!(d.push(3, 5, false, &[0x7c, 0x85, 1]).is_empty());
    assert!(d.push(4, 5, false, &[0x7c, 0x05, 2]).is_empty());
    let out = d.push(5, 5, true, &[0x7c, 0x45, 3]);
    assert_eq!(out.len(), 1);
    assert_eq!(out[0].1, 5);
    assert!(out[0].0.ends_with(&[0, 0, 0, 1, 0x65, 1, 2, 3]));
    assert!(is_idr(&out[0].0));
}

#[test]
fn an_access_unit_with_a_gap_is_dropped() {
    let mut d = H264Depay::default();
    assert!(d.push(1, 5, false, &[0x41, 1]).is_empty());
    assert!(d.push(3, 5, true, &[0x41, 2]).is_empty());
    assert_eq!(d.seq_gaps, 1);
    assert_eq!(d.dropped_incomplete, 1);
    assert_eq!(d.push(4, 6, true, &[0x41, 3]).len(), 1);
}

#[test]
fn sequence_numbers_wrap() {
    let mut d = H264Depay::default();
    assert_eq!(d.push(65535, 5, true, &[0x41, 1]).len(), 1);
    assert_eq!(d.push(0, 6, true, &[0x41, 1]).len(), 1);
    assert_eq!(d.seq_gaps, 0);
}

#[test]
fn aggregates_are_unpacked() {
    let mut d = H264Depay::default();
    let out = d.push(1, 5, true, &[0x78, 0, 2, 0x41, 1, 0, 3, 0x41, 2, 3]);
    assert_eq!(out.len(), 1);
    assert_eq!(out[0].0, vec![0, 0, 0, 1, 0x41, 1, 0, 0, 0, 1, 0x41, 2, 3]);
}

#[test]
fn keyframes_carry_their_parameter_sets() {
    let mut d = H264Depay::default();
    d.push(1, 5, false, &[0x67, 9, 9, 9]);
    d.push(2, 5, false, &[0x68, 8]);
    assert_eq!(d.push(3, 5, true, &[0x65, 1]).len(), 1);
    let out = d.push(4, 6, true, &[0x65, 2]);
    assert_eq!(
        out[0].0,
        vec![0, 0, 0, 1, 0x67, 9, 9, 9, 0, 0, 0, 1, 0x68, 8, 0, 0, 0, 1, 0x65, 2]
    );
}

#[test]
fn only_some_units_are_keyframes() {
    assert!(is_idr(&[0, 0, 0, 1, 0x09, 0, 0, 0, 1, 0x65]));
    assert!(!is_idr(&[0, 0, 1, 0x65]));
    assert!(!is_idr(&[0, 0, 0, 1, 0x41, 0x65]));
    assert!(!is_idr(&[]));
}
